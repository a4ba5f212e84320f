use sampo_core::pip::discover_packages;
use sampo_core::tree::Value;
use sampo_core::types::PackageKind;

fn project(name: &str, version: &str, deps: &[&str]) -> Value {
    let deps: Vec<Value> = deps.iter().map(|d| Value::Str(d.to_string())).collect();
    Value::Table(vec![(
        "project".to_string(),
        Value::Table(vec![
            ("name".to_string(), Value::Str(name.to_string())),
            ("version".to_string(), Value::Str(version.to_string())),
            ("dependencies".to_string(), Value::List(deps)),
        ]),
    )])
}

fn member(dir: &str, doc: Value) -> (String, String, Value) {
    (dir.to_string(), format!("{}/pyproject.toml", dir), doc)
}

fn workspace_root(name: &str, deps: &[&str]) -> (String, String, Value) {
    member("/ws", project(name, "1.0.0", deps))
}

#[test]
fn discover_single_pypi_package() {
    let members = vec![member("/ws", project("example-pkg", "0.1.0", &[]))];
    let packages = discover_packages(&members).unwrap();
    assert_eq!(packages.len(), 1);
    let pkg = &packages[0];
    assert_eq!(pkg.name, "example-pkg");
    assert_eq!(pkg.version, "0.1.0");
    assert_eq!(pkg.kind, PackageKind::PyPI);
    assert!(pkg.internal_deps.is_empty());
}

#[test]
fn discover_uv_workspace_packages() {
    let members = vec![
        workspace_root("workspace-root", &["pkg-a"]),
        member("/ws/packages/pkg-a", project("pkg-a", "0.1.0", &["pkg-b>=0.2.0"])),
        member("/ws/packages/pkg-b", project("pkg-b", "0.2.0", &[])),
    ];
    let packages = discover_packages(&members).unwrap();
    assert_eq!(packages.len(), 3);

    let root_pkg = packages.iter().find(|p| p.name == "workspace-root").unwrap();
    assert!(root_pkg.internal_deps.contains(&"pypi/pkg-a".to_string()));
    let pkg_a = packages.iter().find(|p| p.name == "pkg-a").unwrap();
    assert!(pkg_a.internal_deps.contains(&"pypi/pkg-b".to_string()));
    let pkg_b = packages.iter().find(|p| p.name == "pkg-b").unwrap();
    assert!(pkg_b.internal_deps.is_empty());
}

#[test]
fn discover_uv_workspace_with_explicit_members() {
    let members = vec![
        workspace_root("root", &[]),
        member("/ws/libs/core", project("core-lib", "0.1.0", &[])),
        member("/ws/libs/utils", project("utils-lib", "0.2.0", &[])),
    ];
    let packages = discover_packages(&members).unwrap();
    assert_eq!(packages.len(), 3);
    let names: Vec<&str> = packages.iter().map(|p| p.name.as_str()).collect();
    assert!(names.contains(&"root"));
    assert!(names.contains(&"core-lib"));
    assert!(names.contains(&"utils-lib"));
}

#[test]
fn discover_matches_internal_deps_with_different_casing() {
    let members = vec![
        workspace_root("workspace-root", &[]),
        member("/ws/packages/pkg-a", project("My_Core_Package", "0.1.0", &[])),
        member("/ws/packages/pkg-b", project("my-app", "0.2.0", &["my-core-package>=0.1.0"])),
    ];
    let packages = discover_packages(&members).unwrap();
    assert_eq!(packages.len(), 3);
    let pkg_b = packages.iter().find(|p| p.name == "my-app").unwrap();
    assert!(
        pkg_b.internal_deps.contains(&"pypi/My_Core_Package".to_string()),
        "Expected my-app to have internal dep on My_Core_Package, got: {:?}",
        pkg_b.internal_deps
    );
}

#[test]
fn discover_matches_internal_deps_with_different_separators() {
    let members = vec![
        workspace_root("workspace-root", &[]),
        member("/ws/packages/core", project("my_core", "1.0.0", &[])),
        member("/ws/packages/app", project("my-app", "1.0.0", &["my.core>=1.0.0"])),
    ];
    let packages = discover_packages(&members).unwrap();
    let app = packages.iter().find(|p| p.name == "my-app").unwrap();
    assert!(
        app.internal_deps.contains(&"pypi/my_core".to_string()),
        "Expected my-app to have internal dep on my_core (matching my.core), got: {:?}",
        app.internal_deps
    );
}

#[test]
fn discover_rejects_collision_dash_underscore() {
    let members = vec![
        workspace_root("workspace-root", &[]),
        member("/ws/packages/my-package", project("my-package", "1.0.0", &[])),
        member("/ws/packages/my_package", project("my_package", "1.0.0", &[])),
    ];
    let err = discover_packages(&members).expect_err("expected collision to fail");
    let msg = err.to_string();
    assert!(
        msg.contains("normalize to the same PEP 503 name"),
        "error should mention PEP 503 collision: {}",
        msg
    );
    assert!(msg.contains("my-package"), "error should mention first package name");
}

#[test]
fn discover_rejects_collision_case_insensitive() {
    let members = vec![
        workspace_root("workspace-root", &[]),
        member("/ws/packages/mypackage", project("MyPackage", "1.0.0", &[])),
        member("/ws/packages/mypackage2", project("mypackage", "1.0.0", &[])),
    ];
    let err = discover_packages(&members).expect_err("expected collision to fail");
    let msg = err.to_string();
    assert!(
        msg.contains("normalize to the same PEP 503 name"),
        "error should mention PEP 503 collision: {}",
        msg
    );
}

#[test]
fn discover_rejects_collision_dot_separator() {
    let members = vec![
        workspace_root("workspace-root", &[]),
        member("/ws/packages/pkg1", project("my.package", "1.0.0", &[])),
        member("/ws/packages/pkg2", project("my-package", "1.0.0", &[])),
    ];
    let err = discover_packages(&members).expect_err("expected collision to fail");
    let msg = err.to_string();
    assert!(
        msg.contains("normalize to the same PEP 503 name"),
        "error should mention PEP 503 collision: {}",
        msg
    );
}

#[test]
fn discover_allows_distinct_normalized_names() {
    let members = vec![
        workspace_root("workspace-root", &[]),
        member("/ws/packages/pkg1", project("my-package", "1.0.0", &[])),
        member("/ws/packages/pkg2", project("mypackage", "1.0.0", &[])),
    ];
    let packages = discover_packages(&members).expect("distinct names should succeed");
    assert_eq!(packages.len(), 3);
}

#[test]
fn discover_reports_missing_project_name() {
    let doc = Value::Table(vec![(
        "project".to_string(),
        Value::Table(vec![("version".to_string(), Value::Str("1.0.0".to_string()))]),
    )]);
    let members = vec![member("/ws", doc)];
    let err = discover_packages(&members).expect_err("a project needs a name");
    assert_eq!(
        err.to_string(),
        "Invalid manifest: missing project.name in /ws/pyproject.toml"
    );
}

#[test]
fn discover_names_the_collision_exactly() {
    let members = vec![
        member("/a", project("Foo_Bar", "1.0.0", &[])),
        member("/b", project("foo.bar", "1.0.0", &[])),
    ];
    let err = discover_packages(&members).expect_err("collision");
    assert_eq!(
        err.to_string(),
        "Invalid workspace: packages 'Foo_Bar' (at /a) and 'foo.bar' (at /b) normalize to the same PEP 503 name 'foo-bar'. Python ecosystems do not allow duplicate normalized names"
    );
}
