use sampo_core::cargo::{
    cargo_member_versions, has_workspace_version_inheritance, inherited_workspace_version,
    is_publishable_to_crates_io, rewrite_manifest_versions, rewrite_workspace_root_manifest, update_manifest_versions,
    CargoDependency, CargoManifestFields, DependencyItem, VersionSlot,
};
use sampo_core::errors::SampoError;
use sampo_core::pip::TomlSpan;
use sampo_core::tree::Value;
use sampo_core::types::{PackageInfo, PackageKind};
use std::collections::BTreeMap;

/// The span of the `n`-th occurrence of `needle` in `input` (ASCII, so byte
/// and character positions agree), holding `text`.
fn nth_span(input: &str, needle: &str, n: usize, text: Option<&str>) -> TomlSpan {
    let start = input.match_indices(needle).nth(n).expect("needle present").0;
    TomlSpan { start, end: start + needle.len(), text: text.map(|t| t.to_string()) }
}

fn quoted(input: &str, value: &str) -> TomlSpan {
    nth_span(input, &format!("\"{}\"", value), 0, Some(value))
}

fn slot(workspace: bool, version: Option<TomlSpan>, inline: bool, anchor: TomlSpan) -> VersionSlot {
    VersionSlot { workspace, version, inline, has_entries: true, anchor }
}

fn dep(key: &str, item: DependencyItem) -> CargoDependency {
    CargoDependency { key: key.to_string(), package: None, item }
}

fn updates(pairs: &[(&str, &str)]) -> Vec<(String, String)> {
    let map: BTreeMap<String, String> =
        pairs.iter().map(|(k, v)| (k.to_string(), v.to_string())).collect();
    map.into_iter().collect()
}

fn check_skips_workspace_dependencies_when_updating() {
    let input = "[package]\nname=\"demo\"\nversion=\"0.1.0\"\n\n[dependencies]\nfoo = { workspace = true, optional = true }\n";
    let (out, applied) =
        update_manifest_versions("/demo/Cargo.toml", input, None, &updates(&[("foo", "1.2.3")])).unwrap();
    assert_eq!(out.trim_end(), input.trim_end());
    assert!(applied.is_empty());
}

fn check_updates_workspace_dependency_with_explicit_version() {
    let input = "[workspace.dependencies]\nfoo = { version = \"0.1.0\", path = \"foo\" }\n";
    let (out, applied) =
        update_manifest_versions("/workspace/Cargo.toml", input, None, &updates(&[("foo", "0.2.0")]))
            .unwrap();
    assert!(applied.contains(&("foo".to_string(), "0.2.0".to_string())));
    assert!(out.contains("version = \"0.2.0\""));
}

fn check_skips_workspace_dependency_without_version() {
    let input = "[workspace.dependencies]\nfoo = { path = \"foo\" }\n";
    let (out, applied) =
        update_manifest_versions("/workspace/Cargo.toml", input, None, &updates(&[("foo", "0.2.0")]))
            .unwrap();
    assert_eq!(out.trim_end(), input.trim_end());
    assert!(applied.is_empty());
}

fn check_converts_simple_dep_without_quotes() {
    let input = "[package]\nname=\"demo\"\nversion=\"0.1.0\"\n\n[dependencies]\nbar = \"0.1.0\"\n";
    let (out, applied) =
        update_manifest_versions("/demo/Cargo.toml", input, None, &updates(&[("bar", "0.2.0")])).unwrap();
    assert!(applied.contains(&("bar".to_string(), "0.2.0".to_string())));
    assert!(out.contains("bar = \"0.2.0\""));
}

#[test]
fn cargo_tests_skips_workspace_dependencies_when_updating() {
    check_skips_workspace_dependencies_when_updating();
}

#[test]
fn manifest_skips_workspace_dependencies_when_updating() {
    check_skips_workspace_dependencies_when_updating();
}

#[test]
fn cargo_tests_updates_workspace_dependency_with_explicit_version() {
    check_updates_workspace_dependency_with_explicit_version();
}

#[test]
fn manifest_updates_workspace_dependency_with_explicit_version() {
    check_updates_workspace_dependency_with_explicit_version();
}

#[test]
fn cargo_tests_skips_workspace_dependency_without_version() {
    check_skips_workspace_dependency_without_version();
}

#[test]
fn manifest_skips_workspace_dependency_without_version() {
    check_skips_workspace_dependency_without_version();
}

#[test]
fn cargo_tests_converts_simple_dep_without_quotes() {
    check_converts_simple_dep_without_quotes();
}

#[test]
fn manifest_converts_simple_dep_without_quotes() {
    check_converts_simple_dep_without_quotes();
}

#[test]
fn cargo_adapter_is_publishable_checks_manifest() {
    let manifest = Value::Table(vec![(
        "package".to_string(),
        Value::Table(vec![
            ("name".to_string(), Value::Str("demo".to_string())),
            ("version".to_string(), Value::Str("0.1.0".to_string())),
        ]),
    )]);
    assert!(is_publishable_to_crates_io(&manifest));
}

#[test]
fn package_version_and_table_dependency_are_rewritten() {
    let input = "[package]\nname = \"app\"\nversion = \"0.1.0\" # pinned\n\n[dependencies.core]\npath = \"../core\"\n";
    let fields = Ok(CargoManifestFields {
        package: Some(slot(false, Some(quoted(input, "0.1.0")), false, nth_span(input, "\n", 2, Some("\n")))),
        dependencies: vec![dep(
            "core",
            DependencyItem::Table(slot(false, None, false, nth_span(input, "\n", 5, Some("\n")))),
        )],
        workspace_dependencies: vec![],
        workspace_version: None,
    });
    let (out, applied) =
        rewrite_manifest_versions("/app/Cargo.toml", input, &fields, Some("0.2.0"), &updates(&[("core", "1.0.0")]))
            .unwrap();
    assert_eq!(
        out,
        "[package]\nname = \"app\"\nversion = \"0.2.0\" # pinned\n\n[dependencies.core]\npath = \"../core\"\nversion = \"1.0.0\"\n"
    );
    assert_eq!(applied, vec![("core".to_string(), "1.0.0".to_string())]);
}

#[test]
fn renamed_inline_dependency_gains_a_version() {
    let input = "[dependencies]\nfast = { package = \"core\", path = \"../core\" }\n";
    let fields = Ok(CargoManifestFields {
        package: None,
        dependencies: vec![CargoDependency {
            key: "fast".to_string(),
            package: Some("core".to_string()),
            item: DependencyItem::Table(slot(false, None, true, nth_span(input, "}", 0, Some("}")))),
        }],
        workspace_dependencies: vec![],
        workspace_version: None,
    });
    let (out, applied) =
        rewrite_manifest_versions("/app/Cargo.toml", input, &fields, None, &updates(&[("core", "2.0.0")])).unwrap();
    assert_eq!(
        out,
        "[dependencies]\nfast = { package = \"core\", path = \"../core\" , version = \"2.0.0\" }\n"
    );
    assert_eq!(applied, vec![("core".to_string(), "2.0.0".to_string())]);
}

#[test]
fn missing_package_section_is_reported() {
    let input = "[dependencies]\n";
    let fields = Ok(CargoManifestFields {
        package: None,
        dependencies: vec![],
        workspace_dependencies: vec![],
        workspace_version: None,
    });
    match rewrite_manifest_versions("/x/Cargo.toml", input, &fields, Some("1.0.0"), &[]) {
        Err(SampoError::Release(m)) => assert_eq!(m, "Manifest /x/Cargo.toml is missing a [package] section"),
        other => panic!("unexpected {:?}", other),
    }
    let broken: Result<CargoManifestFields, String> = Err("expected `=`".to_string());
    match rewrite_manifest_versions("/x/Cargo.toml", "[", &broken, None, &[]) {
        Err(SampoError::Release(m)) => assert_eq!(m, "Failed to parse manifest /x/Cargo.toml: expected `=`"),
        other => panic!("unexpected {:?}", other),
    }
}

#[test]
fn workspace_root_keeps_shorthand_and_updates_shared_version() {
    let input = "[workspace.package]\nversion = \"0.1.0\"\n\n[workspace.dependencies]\na = \"0.1\"\nb = { version = \"0.1.0\", path = \"b\" }\n";
    let fields = Ok(CargoManifestFields {
        package: None,
        dependencies: vec![],
        workspace_dependencies: vec![
            dep("a", DependencyItem::Value(quoted(input, "0.1"))),
            dep(
                "b",
                DependencyItem::Table(slot(false, Some(nth_span(input, "\"0.1.0\"", 1, Some("0.1.0"))), true, nth_span(input, "}", 0, Some("}")))),
            ),
        ],
        workspace_version: Some(quoted(input, "0.1.0")),
    });
    let (out, changed) = rewrite_workspace_root_manifest(
        "/ws/Cargo.toml",
        input,
        &fields,
        Some("0.1.1"),
        &updates(&[("a", "0.1.1"), ("b", "0.1.1")]),
    )
    .unwrap();
    assert!(changed);
    assert_eq!(
        out,
        "[workspace.package]\nversion = \"0.1.1\"\n\n[workspace.dependencies]\na = \"0.1\"\nb = { version = \"0.1.1\", path = \"b\" }\n"
    );
}

#[test]
fn inheritance_is_read_from_the_package_version() {
    assert_eq!(has_workspace_version_inheritance("[package]\nversion.workspace = true\n").unwrap(), true);
    assert_eq!(has_workspace_version_inheritance("[dependencies]\n").unwrap(), false);
    match has_workspace_version_inheritance("[package") {
        Err(SampoError::Release(m)) => assert!(m.starts_with("Failed to parse manifest: ")),
        other => panic!("unexpected {:?}", other),
    }
}

fn member(name: &str, kind: PackageKind) -> PackageInfo {
    PackageInfo {
        name: name.to_string(),
        identifier: format!("{}/{}", kind.as_str(), name),
        version: "0.1.0".to_string(),
        path: format!("/ws/{}", name),
        internal_deps: vec![],
        internal_dev_deps: Vec::new(),
        kind,
    }
}

#[test]
fn inherited_members_must_agree_on_a_version() {
    let members = vec![member("a", PackageKind::Cargo), member("b", PackageKind::Cargo), member("c", PackageKind::Npm)];
    let agreed = updates(&[("a", "1.0.0"), ("b", "1.0.0"), ("c", "9.0.0")]);
    assert_eq!(
        inherited_workspace_version(&members, &[true, true, true], &agreed).unwrap(),
        Some("1.0.0".to_string())
    );
    let split = updates(&[("a", "1.0.0"), ("b", "2.0.0")]);
    match inherited_workspace_version(&members, &[true, true, false], &split) {
        Err(SampoError::Release(m)) => assert_eq!(
            m,
            "workspace-inherited packages resolved to conflicting versions: '1.0.0' and '2.0.0'"
        ),
        other => panic!("unexpected {:?}", other),
    }
    assert_eq!(inherited_workspace_version(&members, &[false, true, false], &split).unwrap(), Some("2.0.0".to_string()));
    assert_eq!(
        cargo_member_versions(&members, &agreed),
        updates(&[("a", "1.0.0"), ("b", "1.0.0")])
    );
}
