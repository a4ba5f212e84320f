use sampo_core::parse::{read_documents, Format};
use sampo_core::cargo::is_publishable_to_crates_io;
use sampo_core::discovery::CargoDiscovery;
use sampo_core::errors::WorkspaceError;
use sampo_core::tree::Value;

fn table(entries: Vec<(&str, Value)>) -> Value {
    Value::Table(entries.into_iter().map(|(k, v)| (k.to_string(), v)).collect())
}

fn text(s: &str) -> Value {
    Value::Str(s.to_string())
}

fn member(dir: &str, doc: Value) -> (String, String, Value) {
    (dir.to_string(), format!("{}/Cargo.toml", dir), doc)
}

#[test]
fn workspace_members_are_read_in_order() {
    let root = table(vec![(
        "workspace",
        table(vec![(
            "members",
            Value::List(vec![text("crates/*"), text("tools/cli")]),
        )]),
    )]);
    assert_eq!(
        CargoDiscovery.parse_workspace_members(&root).unwrap(),
        vec!["crates/*".to_string(), "tools/cli".to_string()]
    );
    assert!(matches!(
        CargoDiscovery.parse_workspace_members(&table(vec![])),
        Err(WorkspaceError::NotFound)
    ));
    match CargoDiscovery.parse_workspace_members(&table(vec![("workspace", table(vec![]))])) {
        Err(WorkspaceError::InvalidWorkspace(m)) => {
            assert_eq!(m, "missing 'members' in [workspace]")
        }
        other => panic!("unexpected result: {other:?}"),
    }
    let bad = table(vec![(
        "workspace",
        table(vec![("members", Value::List(vec![text("a"), Value::Int(3)]))]),
    )]);
    match CargoDiscovery.parse_workspace_members(&bad) {
        Err(WorkspaceError::InvalidWorkspace(m)) => {
            assert_eq!(m, "non-string member in workspace.members")
        }
        other => panic!("unexpected result: {other:?}"),
    }
}

#[test]
fn members_get_versions_and_internal_dependencies() {
    let root = table(vec![(
        "workspace",
        table(vec![("package", table(vec![("version", text("0.3.0"))]))]),
    )]);
    let a = table(vec![
        (
            "package",
            table(vec![
                ("name", text("pkg-a")),
                ("version", table(vec![("workspace", Value::Bool(true))])),
            ]),
        ),
        (
            "dependencies",
            table(vec![
                ("pkg-b", table(vec![("path", text("../pkg-b"))])),
                ("serde", text("1")),
                ("pkg-c", table(vec![("workspace", Value::Bool(true))])),
            ]),
        ),
        (
            "dev-dependencies",
            table(vec![("pkg-c", table(vec![("path", text("../pkg-c"))]))]),
        ),
    ]);
    let b = table(vec![(
        "package",
        table(vec![("name", text("pkg-b")), ("version", text("1.2.0"))]),
    )]);
    let c = table(vec![
        ("package", table(vec![("name", text("pkg-c"))])),
        (
            "build-dependencies",
            table(vec![("pkg-b", table(vec![("path", text("/repo/crates/./pkg-b"))]))]),
        ),
    ]);
    let members = vec![
        member("/repo/crates/pkg-a", a),
        member("/repo/crates/pkg-b", b),
        member("/repo/crates/pkg-c", c),
    ];
    let packages = CargoDiscovery.discover_members(&root, &members).unwrap();
    assert_eq!(packages.len(), 3);
    assert_eq!(packages[0].name, "pkg-a");
    assert_eq!(packages[0].identifier, "cargo/pkg-a");
    assert_eq!(packages[0].version, "0.3.0");
    assert_eq!(
        packages[0].internal_deps,
        vec!["cargo/pkg-b".to_string(), "cargo/pkg-c".to_string()]
    );
    assert_eq!(packages[1].version, "1.2.0");
    assert!(packages[1].internal_deps.is_empty());
    assert_eq!(packages[2].version, "");
    assert_eq!(packages[2].internal_deps, vec!["cargo/pkg-b".to_string()]);
    assert_eq!(packages[2].path, "/repo/crates/pkg-c");
}

#[test]
fn member_manifests_must_name_their_package() {
    let root = table(vec![]);
    let inherits = table(vec![(
        "package",
        table(vec![
            ("name", text("x")),
            ("version", table(vec![("workspace", Value::Bool(true))])),
        ]),
    )]);
    match CargoDiscovery.discover_members(&root, &[member("/r/x", inherits)]) {
        Err(WorkspaceError::InvalidManifest(m)) => assert_eq!(
            m,
            "/r/x/Cargo.toml: version.workspace = true requires workspace.package.version"
        ),
        other => panic!("unexpected result: {other:?}"),
    }
    match CargoDiscovery.discover_members(&root, &[member("/r/y", table(vec![]))]) {
        Err(WorkspaceError::InvalidManifest(m)) => {
            assert_eq!(m, "missing [package] in /r/y/Cargo.toml")
        }
        other => panic!("unexpected result: {other:?}"),
    }
    let unnamed = table(vec![("package", table(vec![]))]);
    match CargoDiscovery.discover_members(&root, &[member("/r/z", unnamed)]) {
        Err(WorkspaceError::InvalidManifest(m)) => {
            assert_eq!(m, "missing package.name in /r/z/Cargo.toml")
        }
        other => panic!("unexpected result: {other:?}"),
    }
}

#[test]
fn crates_io_publishing_follows_the_publish_field() {
    let pkg = |publish: Option<Value>| {
        let mut entries = vec![("name", text("x"))];
        if let Some(p) = publish {
            entries.push(("publish", p));
        }
        table(vec![("package", table(entries))])
    };
    assert!(is_publishable_to_crates_io(&pkg(None)));
    assert!(!is_publishable_to_crates_io(&pkg(Some(Value::Bool(false)))));
    assert!(is_publishable_to_crates_io(&pkg(Some(Value::Bool(true)))));
    assert!(!is_publishable_to_crates_io(&pkg(Some(Value::List(vec![text("custom")])))));
    assert!(is_publishable_to_crates_io(&pkg(Some(Value::List(vec![
        text("custom"),
        text("crates-io")
    ])))));
    assert!(!is_publishable_to_crates_io(&table(vec![])));
}

#[test]
fn dev_dependencies_with_a_version_are_development_edges() {
    let texts = vec![
        (
            "/ws/a".to_string(),
            "/ws/a/Cargo.toml".to_string(),
            "[package]\nname = \"a\"\nversion = \"0.1.0\"\n\n[dev-dependencies]\nb = { path = \"../b\", version = \"0.1.0\" }\nc = { path = \"../c\" }\n".to_string(),
        ),
        ("/ws/b".to_string(), "/ws/b/Cargo.toml".to_string(), "[package]\nname = \"b\"\nversion = \"0.1.0\"\n".to_string()),
        ("/ws/c".to_string(), "/ws/c/Cargo.toml".to_string(), "[package]\nname = \"c\"\nversion = \"0.1.0\"\n".to_string()),
    ];
    let members = read_documents(Format::Toml, &texts).unwrap();
    let packages = CargoDiscovery.discover_members(&table(vec![]), &members).unwrap();
    assert!(packages[0].internal_deps.is_empty());
    assert_eq!(packages[0].internal_dev_deps, vec!["cargo/b".to_string()]);
}

#[test]
fn unparsable_member_manifest_is_named_in_the_error() {
    let texts = vec![
        ("/ws/a".to_string(), "/ws/a/Cargo.toml".to_string(), "[package]\nname = \"a\"\n".to_string()),
        ("/ws/b".to_string(), "/ws/b/Cargo.toml".to_string(), "[package\n".to_string()),
    ];
    match read_documents(Format::Toml, &texts) {
        Err(WorkspaceError::InvalidManifest(m)) => assert!(m.starts_with("/ws/b/Cargo.toml: ")),
        other => panic!("unexpected {:?}", other.is_ok()),
    }
}

fn cargo_workspace(
    root_text: &str,
    members: &[(&str, &str)],
) -> Result<Vec<sampo_core::types::PackageInfo>, WorkspaceError> {
    let root = sampo_core::parse::read_document(Format::Toml, "/ws/Cargo.toml", root_text)?;
    let texts: Vec<(String, String, String)> = members
        .iter()
        .map(|(dir, text)| (dir.to_string(), format!("{dir}/Cargo.toml"), text.to_string()))
        .collect();
    let docs = read_documents(Format::Toml, &texts)?;
    CargoDiscovery.discover_members(&root, &docs)
}

#[test]
fn cargo_discoverer_discovers_packages() {
    let root = "[workspace]\nmembers = [\"crates/*\"]\n";
    let doc = sampo_core::parse::parse_toml(root).unwrap();
    assert_eq!(CargoDiscovery.parse_workspace_members(&doc).unwrap(), vec!["crates/*".to_string()]);
    let packages = cargo_workspace(
        root,
        &[
            ("/ws/crates/pkg-a", "[package]\nname = \"pkg-a\"\nversion = \"0.1.0\"\n"),
            ("/ws/crates/pkg-b", "[package]\nname = \"pkg-b\"\nversion = \"0.2.0\"\n"),
        ],
    )
    .unwrap();
    assert_eq!(packages.len(), 2);
    let mut names: Vec<_> = packages.iter().map(|p| p.name.as_str()).collect();
    names.sort();
    assert_eq!(names, vec!["pkg-a", "pkg-b"]);
    assert!(packages.iter().all(|p| p.kind == sampo_core::types::PackageKind::Cargo));
}

#[test]
fn cargo_discoverer_discovers_single_package() {
    let text = "[package]\nname = \"single-crate\"\nversion = \"0.1.0\"\n";
    let packages = cargo_workspace(text, &[("/ws", text)]).unwrap();
    assert_eq!(packages.len(), 1);
    assert_eq!(packages[0].name, "single-crate");
    assert_eq!(packages[0].version, "0.1.0");
    assert_eq!(packages[0].kind, sampo_core::types::PackageKind::Cargo);
    assert_eq!(packages[0].path, "/ws");
    assert!(packages[0].internal_deps.is_empty());
}

#[test]
fn cargo_discoverer_detects_internal_deps() {
    let packages = cargo_workspace(
        "[workspace]\nmembers = [\"crates/*\"]\n",
        &[
            (
                "/ws/crates/pkg-a",
                "[package]\nname=\"pkg-a\"\nversion=\"0.1.0\"\n[dependencies]\npkg-b={ path=\"../pkg-b\" }\n",
            ),
            ("/ws/crates/pkg-b", "[package]\nname=\"pkg-b\"\nversion=\"0.1.0\"\n"),
        ],
    )
    .unwrap();
    let pkg_a = packages.iter().find(|p| p.name == "pkg-a").unwrap();
    assert_eq!(pkg_a.identifier, "cargo/pkg-a");
    assert!(pkg_a.internal_deps.iter().any(|d| d == "cargo/pkg-b"));
}

#[test]
fn cargo_discoverer_handles_workspace_version_inheritance() {
    let packages = cargo_workspace(
        "[workspace]\nmembers = [\"crates/*\"]\n\n[workspace.package]\nversion = \"0.3.0\"\n",
        &[
            ("/ws/crates/pkg-a", "[package]\nname = \"pkg-a\"\nversion.workspace = true\n"),
            ("/ws/crates/pkg-b", "[package]\nname = \"pkg-b\"\nversion = \"0.2.0\"\n"),
        ],
    )
    .unwrap();
    assert_eq!(packages.len(), 2);
    let pkg_a = packages.iter().find(|p| p.name == "pkg-a").unwrap();
    let pkg_b = packages.iter().find(|p| p.name == "pkg-b").unwrap();
    assert_eq!(pkg_a.version, "0.3.0");
    assert_eq!(pkg_b.version, "0.2.0");
}

#[test]
fn cargo_discoverer_rejects_workspace_inheritance_without_workspace_version() {
    let result = cargo_workspace(
        "[workspace]\nmembers = [\"pkg-a\"]\n",
        &[("/ws/pkg-a", "[package]\nname = \"pkg-a\"\nversion.workspace = true\n")],
    );
    let err = result.unwrap_err().to_string();
    assert!(err.contains("version.workspace = true requires workspace.package.version"));
}
