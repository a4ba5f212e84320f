use sampo_core::errors::SampoError;
use sampo_core::pip::{
    collect_dependencies, find_dependency_constraint, is_publishable, parse_project_metadata,
    parse_uv_workspace_members, publish_metadata, update_manifest_versions, PyProjectFields,
    TomlSpan,
};
use sampo_core::tree::Value;
use sampo_core::pip::{extract_package_name, manifest_path, normalize_package_name, normalize_path, try_update_dependency_spec};
use std::collections::BTreeMap;

fn entries(m: &BTreeMap<String, String>) -> Vec<(String, String)> {
    m.iter().map(|(k, v)| (k.clone(), v.clone())).collect()
}

#[test]
fn extract_package_name_handles_simple_names() {
    assert_eq!(
        extract_package_name("requests"),
        Some("requests".to_string())
    );
    assert_eq!(
        extract_package_name("my-package"),
        Some("my-package".to_string())
    );
    assert_eq!(
        extract_package_name("some_pkg"),
        Some("some_pkg".to_string())
    );
}

#[test]
fn extract_package_name_handles_version_specifiers() {
    assert_eq!(
        extract_package_name("requests>=2.0"),
        Some("requests".to_string())
    );
    assert_eq!(
        extract_package_name("flask==2.0.0"),
        Some("flask".to_string())
    );
    assert_eq!(
        extract_package_name("django~=4.0"),
        Some("django".to_string())
    );
    assert_eq!(extract_package_name("numpy<2.0"), Some("numpy".to_string()));
    assert_eq!(
        extract_package_name("pandas>1.0,<2.0"),
        Some("pandas".to_string())
    );
}

#[test]
fn extract_package_name_handles_extras() {
    assert_eq!(
        extract_package_name("requests[security]>=2.0"),
        Some("requests".to_string())
    );
    assert_eq!(
        extract_package_name("package[extra1,extra2]"),
        Some("package".to_string())
    );
}

#[test]
fn extract_package_name_handles_environment_markers() {
    assert_eq!(
        extract_package_name("pywin32; sys_platform == 'win32'"),
        Some("pywin32".to_string())
    );
    assert_eq!(
        extract_package_name("typing-extensions>=4.0; python_version < '3.10'"),
        Some("typing-extensions".to_string())
    );
}

#[test]
fn extract_package_name_rejects_empty() {
    assert_eq!(extract_package_name(""), None);
    assert_eq!(extract_package_name("   "), None);
}

#[test]
fn try_update_dependency_spec_preserves_operator() {
    let mut versions = BTreeMap::new();
    versions.insert("requests".to_string(), "3.0.0".to_string());

    let result = try_update_dependency_spec("requests>=2.0.0", &entries(&versions));
    assert_eq!(
        result,
        Some(("requests".to_string(), "requests>=3.0.0".to_string()))
    );

    let result = try_update_dependency_spec("requests==2.0.0", &entries(&versions));
    assert_eq!(
        result,
        Some(("requests".to_string(), "requests==3.0.0".to_string()))
    );

    let result = try_update_dependency_spec("requests~=2.0.0", &entries(&versions));
    assert_eq!(
        result,
        Some(("requests".to_string(), "requests~=3.0.0".to_string()))
    );
}

#[test]
fn try_update_dependency_spec_skips_bare_dependencies() {
    let mut versions = BTreeMap::new();
    versions.insert("requests".to_string(), "3.0.0".to_string());

    // Bare dependency without version - skip (nothing to update atomically)
    let result = try_update_dependency_spec("requests", &entries(&versions));
    assert_eq!(result, None);
}

#[test]
fn try_update_dependency_spec_ignores_unknown_packages() {
    let versions: BTreeMap<String, String> = BTreeMap::new();

    let result = try_update_dependency_spec("requests>=2.0.0", &entries(&versions));
    assert_eq!(result, None);
}

#[test]
fn try_update_dependency_spec_skips_when_already_at_version() {
    let mut versions = BTreeMap::new();
    versions.insert("requests".to_string(), "2.0.0".to_string());

    // Already at target version - no change needed
    let result = try_update_dependency_spec("requests>=2.0.0", &entries(&versions));
    assert_eq!(result, None);
}

#[test]
fn try_update_dependency_spec_preserves_extras() {
    let mut versions = BTreeMap::new();
    versions.insert("requests".to_string(), "3.0.0".to_string());

    // Single extra
    let result = try_update_dependency_spec("requests[security]>=2.0.0", &entries(&versions));
    assert_eq!(
        result,
        Some((
            "requests".to_string(),
            "requests[security]>=3.0.0".to_string()
        ))
    );

    // Multiple extras
    let result = try_update_dependency_spec("requests[security,socks]>=2.0.0", &entries(&versions));
    assert_eq!(
        result,
        Some((
            "requests".to_string(),
            "requests[security,socks]>=3.0.0".to_string()
        ))
    );

    // Extra without version - skip (bare dependency)
    let result = try_update_dependency_spec("requests[security]", &entries(&versions));
    assert_eq!(result, None);
}

#[test]
fn try_update_dependency_spec_preserves_environment_markers() {
    let mut versions = BTreeMap::new();
    versions.insert("typing-extensions".to_string(), "5.0.0".to_string());
    versions.insert("pywin32".to_string(), "400".to_string());

    // Python version marker
    let result = try_update_dependency_spec(
        "typing-extensions>=4.0; python_version < \"3.10\"",
        &entries(&versions),
    );
    assert_eq!(
        result,
        Some((
            "typing-extensions".to_string(),
            "typing-extensions>=5.0.0 ; python_version < \"3.10\"".to_string()
        ))
    );

    // Platform marker
    let result = try_update_dependency_spec("pywin32>=300; sys_platform == 'win32'", &entries(&versions));
    assert_eq!(
        result,
        Some((
            "pywin32".to_string(),
            "pywin32>=400 ; sys_platform == 'win32'".to_string()
        ))
    );

    // Marker without version - skip (bare dependency)
    let result = try_update_dependency_spec("pywin32; sys_platform == 'win32'", &entries(&versions));
    assert_eq!(result, None);
}

#[test]
fn try_update_dependency_spec_skips_multiple_constraints() {
    let mut versions = BTreeMap::new();
    versions.insert("pandas".to_string(), "2.0.0".to_string());
    versions.insert("numpy".to_string(), "2.0.0".to_string());

    // Multiple constraints should be skipped - they require manual review
    // as bumping may create invalid ranges like >=2.0.0,<2.0
    let result = try_update_dependency_spec("pandas>=1.0,<2.0", &entries(&versions));
    assert_eq!(result, None);

    let result = try_update_dependency_spec("numpy>=1.20,!=1.22.0,<2.0", &entries(&versions));
    assert_eq!(result, None);
}

#[test]
fn try_update_dependency_spec_skips_url_references() {
    let mut versions = BTreeMap::new();
    versions.insert("my-package".to_string(), "2.0.0".to_string());

    // URL reference should be skipped (not modified)
    let result = try_update_dependency_spec(
        "my-package @ https://github.com/user/repo/archive/main.zip",
        &entries(&versions),
    );
    assert_eq!(result, None);

    // File URL reference
    let result = try_update_dependency_spec("my-package @ file:///local/path", &entries(&versions));
    assert_eq!(result, None);
}

#[test]
fn try_update_dependency_spec_preserves_extras_with_markers() {
    let mut versions = BTreeMap::new();
    versions.insert("requests".to_string(), "3.0.0".to_string());

    // Extras + version + markers
    let result = try_update_dependency_spec(
        "requests[security]>=2.0; python_version >= \"3.8\"",
        &entries(&versions),
    );
    assert_eq!(
        result,
        Some((
            "requests".to_string(),
            "requests[security]>=3.0.0 ; python_version >= \"3.8\"".to_string()
        ))
    );
}

#[test]
fn try_update_dependency_spec_skips_multiple_constraints_with_markers() {
    let mut versions = BTreeMap::new();
    versions.insert("pandas".to_string(), "2.5.0".to_string());

    // Multiple constraints + markers should be skipped
    let result =
        try_update_dependency_spec("pandas>=1.0,<2.0; python_version >= \"3.9\"", &entries(&versions));
    assert_eq!(result, None);
}

#[test]
fn try_update_dependency_spec_handles_all_operators() {
    let mut versions = BTreeMap::new();
    versions.insert("pkg".to_string(), "5.0.0".to_string());

    // >=
    assert_eq!(
        try_update_dependency_spec("pkg>=1.0", &entries(&versions)),
        Some(("pkg".to_string(), "pkg>=5.0.0".to_string()))
    );

    // <=
    assert_eq!(
        try_update_dependency_spec("pkg<=1.0", &entries(&versions)),
        Some(("pkg".to_string(), "pkg<=5.0.0".to_string()))
    );

    // ==
    assert_eq!(
        try_update_dependency_spec("pkg==1.0", &entries(&versions)),
        Some(("pkg".to_string(), "pkg==5.0.0".to_string()))
    );

    // ~=
    assert_eq!(
        try_update_dependency_spec("pkg~=1.0", &entries(&versions)),
        Some(("pkg".to_string(), "pkg~=5.0.0".to_string()))
    );

    // !=
    assert_eq!(
        try_update_dependency_spec("pkg!=1.0", &entries(&versions)),
        Some(("pkg".to_string(), "pkg!=5.0.0".to_string()))
    );

    // >
    assert_eq!(
        try_update_dependency_spec("pkg>1.0", &entries(&versions)),
        Some(("pkg".to_string(), "pkg>5.0.0".to_string()))
    );

    // <
    assert_eq!(
        try_update_dependency_spec("pkg<1.0", &entries(&versions)),
        Some(("pkg".to_string(), "pkg<5.0.0".to_string()))
    );
}

#[test]
fn normalize_path_collapses_segments() {
    let input = "/a/b/../c/./d";
    let expected = String::from("/a/c/d");
    assert_eq!(normalize_path(input), expected);
}

#[test]
fn normalize_path_prevents_escaping_root() {
    let input = "/a/../..";
    let expected = String::from("/");
    assert_eq!(normalize_path(input), expected);

    let input = "a/../..";
    let expected = String::from("");
    assert_eq!(normalize_path(input), expected);
}

#[test]
fn manifest_path_returns_pyproject_toml() {
    let path = manifest_path("/some/package");
    assert_eq!(path, String::from("/some/package/pyproject.toml"));
}

#[test]
fn normalize_package_name_lowercases() {
    assert_eq!(normalize_package_name("Requests"), "requests");
    assert_eq!(normalize_package_name("DJANGO"), "django");
    assert_eq!(normalize_package_name("Flask"), "flask");
    assert_eq!(normalize_package_name("MyPackage"), "mypackage");
}

#[test]
fn normalize_package_name_replaces_separators_with_dash() {
    // Underscores become dashes
    assert_eq!(normalize_package_name("my_package"), "my-package");
    // Dots become dashes
    assert_eq!(normalize_package_name("my.package"), "my-package");
    // Dashes stay as dashes
    assert_eq!(normalize_package_name("my-package"), "my-package");
}

#[test]
fn normalize_package_name_collapses_separator_runs() {
    // Multiple underscores
    assert_eq!(normalize_package_name("my__package"), "my-package");
    // Multiple dashes
    assert_eq!(normalize_package_name("my--package"), "my-package");
    // Multiple dots
    assert_eq!(normalize_package_name("my..package"), "my-package");
    // Mixed separators
    assert_eq!(normalize_package_name("my_-._package"), "my-package");
    assert_eq!(normalize_package_name("my.-_package"), "my-package");
}

#[test]
fn normalize_package_name_handles_leading_trailing_separators() {
    // Leading separators are dropped
    assert_eq!(normalize_package_name("_package"), "package");
    assert_eq!(normalize_package_name("-package"), "package");
    assert_eq!(normalize_package_name(".package"), "package");
    assert_eq!(normalize_package_name("__package"), "package");

    // Trailing separators are dropped
    assert_eq!(normalize_package_name("package_"), "package");
    assert_eq!(normalize_package_name("package-"), "package");
    assert_eq!(normalize_package_name("package."), "package");
    assert_eq!(normalize_package_name("package__"), "package");
}

#[test]
fn normalize_package_name_combined_cases() {
    // PEP 503 example: all these should normalize to the same value
    assert_eq!(normalize_package_name("My_Package"), "my-package");
    assert_eq!(normalize_package_name("my-package"), "my-package");
    assert_eq!(normalize_package_name("my.package"), "my-package");
    assert_eq!(normalize_package_name("MY--PACKAGE"), "my-package");
    assert_eq!(normalize_package_name("My..Package"), "my-package");
    assert_eq!(normalize_package_name("my___package"), "my-package");

    // More complex cases
    assert_eq!(
        normalize_package_name("Typing_Extensions"),
        "typing-extensions"
    );
    assert_eq!(
        normalize_package_name("typing-extensions"),
        "typing-extensions"
    );
    assert_eq!(
        normalize_package_name("typing.extensions"),
        "typing-extensions"
    );
}

#[test]
fn normalize_package_name_handles_empty_and_simple() {
    assert_eq!(normalize_package_name(""), "");
    assert_eq!(normalize_package_name("a"), "a");
    assert_eq!(normalize_package_name("pkg"), "pkg");
}

#[test]
fn try_update_dependency_spec_matches_with_normalized_names() {
    let mut versions = BTreeMap::new();
    // Map has uppercase/underscore name
    versions.insert("My_Package".to_string(), "3.0.0".to_string());

    // Dependency uses lowercase/dash - should still match
    let result = try_update_dependency_spec("my-package>=2.0.0", &entries(&versions));
    assert_eq!(
        result,
        Some(("My_Package".to_string(), "my-package>=3.0.0".to_string()))
    );
}

#[test]
fn try_update_dependency_spec_matches_underscore_to_dash() {
    let mut versions = BTreeMap::new();
    versions.insert("typing-extensions".to_string(), "5.0.0".to_string());

    // Dependency uses underscore
    let result = try_update_dependency_spec("typing_extensions>=4.0.0", &entries(&versions));
    assert_eq!(
        result,
        Some((
            "typing-extensions".to_string(),
            "typing_extensions>=5.0.0".to_string()
        ))
    );
}

#[test]
fn try_update_dependency_spec_matches_dot_to_dash() {
    let mut versions = BTreeMap::new();
    versions.insert("zope-interface".to_string(), "6.0.0".to_string());

    // Dependency uses dots
    let result = try_update_dependency_spec("zope.interface>=5.0.0", &entries(&versions));
    assert_eq!(
        result,
        Some((
            "zope-interface".to_string(),
            "zope.interface>=6.0.0".to_string()
        ))
    );
}

#[test]
fn try_update_dependency_spec_case_insensitive_match() {
    let mut versions = BTreeMap::new();
    versions.insert("Flask".to_string(), "3.0.0".to_string());

    // Dependency uses lowercase
    let result = try_update_dependency_spec("flask>=2.0.0", &entries(&versions));
    assert_eq!(
        result,
        Some(("Flask".to_string(), "flask>=3.0.0".to_string()))
    );

    // Dependency uses uppercase
    let result = try_update_dependency_spec("FLASK>=2.0.0", &entries(&versions));
    assert_eq!(
        result,
        Some(("Flask".to_string(), "FLASK>=3.0.0".to_string()))
    );
}

#[test]
fn try_update_dependency_spec_returns_original_name_from_map() {
    let mut versions = BTreeMap::new();
    // The map has the "canonical" name as stored in package info
    versions.insert("My_Special_Package".to_string(), "2.0.0".to_string());

    let result = try_update_dependency_spec("my-special-package>=1.0.0", &entries(&versions));

    // Should return the original name from the map, not the dependency spec name
    assert!(result.is_some());
    let (returned_name, _) = result.unwrap();
    assert_eq!(returned_name, "My_Special_Package");
}

/// The string value written as `"text"` in `input` (each occurs once here;
/// the inputs are ASCII, so byte and character positions agree).
fn toml_string_at(input: &str, text: &str) -> TomlSpan {
    let quoted = format!("\"{}\"", text);
    let start = input.find(&quoted).expect("value present");
    TomlSpan {
        start,
        end: start + quoted.len(),
        text: Some(text.to_string()),
    }
}

fn plan(pairs: &[(&str, &str)]) -> Vec<(String, String)> {
    pairs
        .iter()
        .map(|(a, b)| (a.to_string(), b.to_string()))
        .collect()
}

fn doc(entries: Vec<(&str, Value)>) -> Value {
    Value::Table(entries.into_iter().map(|(k, v)| (k.to_string(), v)).collect())
}

fn strings(items: &[&str]) -> Value {
    Value::List(items.iter().map(|s| Value::Str(s.to_string())).collect())
}

#[test]
fn pip_tests_update_manifest_versions_updates_version() {
    let manifest = r#"
[project]
name = "my-pkg"
version = "0.1.0"
dependencies = []
"#;
    let (updated, _applied) = update_manifest_versions("pyproject.toml", manifest, Some("0.2.0"), &plan(&[])).unwrap();
    assert!(updated.contains(r#"version = "0.2.0""#));
}

#[test]
fn pip_tests_update_manifest_versions_updates_dependencies() {
    let manifest = r#"
[project]
name = "my-pkg"
version = "0.1.0"
dependencies = ["other-pkg>=1.0.0", "another>=2.0"]
"#;
    let (updated, applied) =
        update_manifest_versions("pyproject.toml", manifest, None, &plan(&[("other-pkg", "1.5.0")])).unwrap();
    assert!(updated.contains("other-pkg>=1.5.0"));
    assert!(applied.contains(&("other-pkg".to_string(), "1.5.0".to_string())));
}

#[test]
fn update_manifest_versions_updates_optional_dependencies() {
    let manifest = r#"
[project]
name = "my-pkg"
version = "0.1.0"
dependencies = []

[project.optional-dependencies]
dev = ["pytest>=7.0.0", "my-dep>=1.0.0"]
"#;
    let (updated, applied) =
        update_manifest_versions("pyproject.toml", manifest, None, &plan(&[("my-dep", "2.0.0")])).unwrap();
    assert!(updated.contains("my-dep>=2.0.0"));
    assert!(applied.contains(&("my-dep".to_string(), "2.0.0".to_string())));
}

#[test]
fn pyproject_update_lists_each_dependency_once() {
    let manifest = "[project]\nversion = \"1.0.0\"\ndependencies = [\"a>=1.0\"]\n[project.optional-dependencies]\nx = [\"a==1.0\"]\n";
    let (updated, applied) =
        update_manifest_versions("pyproject.toml", manifest, Some("1.0.0"), &plan(&[("A", "2.0")])).unwrap();
    assert_eq!(
        updated,
        "[project]\nversion = \"1.0.0\"\ndependencies = [\"a>=2.0\"]\n[project.optional-dependencies]\nx = [\"a==2.0\"]\n"
    );
    assert_eq!(applied, plan(&[("A", "2.0")]));
}

#[test]
fn parse_project_metadata_extracts_pep621_fields() {
    let d = doc(vec![(
        "project",
        doc(vec![
            ("name", Value::Str("my-package".into())),
            ("version", Value::Str("1.2.3".into())),
        ]),
    )]);
    let meta = parse_project_metadata(&d);
    assert_eq!(meta.name, Some("my-package".to_string()));
    assert_eq!(meta.version, Some("1.2.3".to_string()));
}

#[test]
fn parse_project_metadata_returns_none_for_missing_fields() {
    let d = doc(vec![(
        "tool",
        doc(vec![("other", doc(vec![("key", Value::Str("value".into()))]))]),
    )]);
    let meta = parse_project_metadata(&d);
    assert_eq!(meta.name, None);
    assert_eq!(meta.version, None);
}

#[test]
fn parse_uv_workspace_members_extracts_members() {
    let d = doc(vec![
        (
            "project",
            doc(vec![
                ("name", Value::Str("root".into())),
                ("version", Value::Str("1.0.0".into())),
            ]),
        ),
        (
            "tool",
            doc(vec![(
                "uv",
                doc(vec![(
                    "workspace",
                    doc(vec![("members", strings(&["packages/*", "libs/core"]))]),
                )]),
            )]),
        ),
    ]);
    let members = parse_uv_workspace_members(&d).unwrap();
    assert_eq!(members.len(), 2);
    assert!(members.contains(&"packages/*".to_string()));
    assert!(members.contains(&"libs/core".to_string()));
}

#[test]
fn parse_uv_workspace_members_returns_none_without_workspace() {
    let d = doc(vec![(
        "project",
        doc(vec![
            ("name", Value::Str("single-pkg".into())),
            ("version", Value::Str("1.0.0".into())),
        ]),
    )]);
    assert!(parse_uv_workspace_members(&d).is_none());
}

#[test]
fn collect_dependencies_finds_pep621_deps() {
    let d = doc(vec![(
        "project",
        doc(vec![
            ("name", Value::Str("my-pkg".into())),
            ("version", Value::Str("1.0.0".into())),
            ("dependencies", strings(&["requests>=2.0", "flask", "django~=4.0"])),
            (
                "optional-dependencies",
                doc(vec![("dev", strings(&["pytest", "black"]))]),
            ),
        ]),
    )]);
    let deps = collect_dependencies(&d);
    assert!(deps.contains(&"requests".to_string()));
    assert!(deps.contains(&"flask".to_string()));
    assert!(deps.contains(&"django".to_string()));
    assert!(deps.contains(&"pytest".to_string()));
    assert!(deps.contains(&"black".to_string()));
}

#[test]
fn collect_dependencies_returns_empty_without_project() {
    let d = doc(vec![(
        "tool",
        doc(vec![("other", doc(vec![("key", Value::Str("value".into()))]))]),
    )]);
    assert!(collect_dependencies(&d).is_empty());
}

#[test]
fn pyproject_dependency_constraints_and_publishing() {
    let d = doc(vec![(
        "project",
        doc(vec![
            ("name", Value::Str("pkg".into())),
            ("version", Value::Str(" ".into())),
            ("dependencies", strings(&["Other_Pkg[x]>=1.0 ; python_version > '3'"])),
            ("optional-dependencies", doc(vec![("dev", strings(&["tool==2.0"]))])),
        ]),
    )]);
    assert_eq!(
        find_dependency_constraint(&d, "other-pkg").as_deref(),
        Some(">=1.0")
    );
    assert_eq!(find_dependency_constraint(&d, "tool").as_deref(), Some("==2.0"));
    assert_eq!(find_dependency_constraint(&d, "absent"), None);
    match is_publishable("/p/pyproject.toml", &d) {
        Err(SampoError::Publish(m)) => {
            assert_eq!(m, "Manifest /p/pyproject.toml declares an empty version")
        }
        other => panic!("unexpected result: {other:?}"),
    }
    match publish_metadata("/p/pyproject.toml", &doc(vec![])) {
        Err(SampoError::Publish(m)) => {
            assert_eq!(m, "Manifest /p/pyproject.toml is missing a project.name field")
        }
        other => panic!("unexpected result: {other:?}"),
    }
    let good = doc(vec![(
        "project",
        doc(vec![
            ("name", Value::Str("pkg".into())),
            ("version", Value::Str("1.0".into())),
        ]),
    )]);
    assert_eq!(is_publishable("/p/pyproject.toml", &good).unwrap(), true);
    assert_eq!(
        publish_metadata("/p/pyproject.toml", &good).unwrap(),
        ("pkg".to_string(), "1.0".to_string())
    );
}
