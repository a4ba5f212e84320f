use sampo_core::errors::SampoError;
use sampo_core::topo_order;
use sampo_core::types::{PackageInfo, PackageKind};

fn package(name: &str, deps: &[&str]) -> PackageInfo {
    PackageInfo {
        name: name.into(),
        identifier: format!("cargo/{}", name),
        version: "0.1.0".into(),
        path: format!("/tmp/{}", name),
        internal_deps: deps.iter().map(|d| d.to_string()).collect(),
        internal_dev_deps: Vec::new(),
        kind: PackageKind::Cargo,
    }
}

fn selection(ids: &[&str]) -> Vec<String> {
    ids.iter().map(|s| s.to_string()).collect()
}

#[test]
fn topo_orders_deps_first() {
    let a = package("a", &[]);
    let b = package("b", &["cargo/a"]);
    let c = package("c", &["cargo/b"]);
    let packages = vec![a, b, c];
    let chosen = selection(&["cargo/a", "cargo/b", "cargo/c"]);
    let order = topo_order(&packages, &chosen).unwrap();
    assert_eq!(order, vec!["cargo/a", "cargo/b", "cargo/c"]);
}

#[test]
fn detects_dependency_cycle() {
    let a = package("a", &["cargo/b"]);
    let b = package("b", &["cargo/a"]);
    let packages = vec![a, b];
    let chosen = selection(&["cargo/a", "cargo/b"]);
    let result = topo_order(&packages, &chosen);
    assert!(result.is_err());
    assert!(result.unwrap_err().to_string().contains("dependency cycle"));
}

#[test]
fn topo_order_reports_first_missing_package() {
    let a = package("a", &[]);
    let packages = vec![a];
    let chosen = selection(&["cargo/z", "cargo/a", "cargo/m"]);
    match topo_order(&packages, &chosen) {
        Err(SampoError::Publish(m)) => assert_eq!(m, "missing package info for 'cargo/m'"),
        other => panic!("unexpected result: {:?}", other),
    }
}

#[test]
fn topo_order_reverse_listing_still_puts_dependencies_first() {
    let app = package("app", &["cargo/mid"]);
    let mid = package("mid", &["cargo/base"]);
    let base = package("base", &[]);
    let packages = vec![app, mid, base];
    let chosen = selection(&["cargo/app", "cargo/mid", "cargo/base"]);
    let order = topo_order(&packages, &chosen).unwrap();
    assert_eq!(order, vec!["cargo/base", "cargo/mid", "cargo/app"]);
}

#[test]
fn topo_order_ready_packages_go_in_name_order() {
    let d = package("d", &["cargo/b", "cargo/c"]);
    let c = package("c", &["cargo/a"]);
    let b = package("b", &["cargo/a"]);
    let a = package("a", &[]);
    let z = package("z", &[]);
    let packages = vec![d, c, b, a, z];
    let chosen = selection(&["cargo/z", "cargo/d", "cargo/c", "cargo/b", "cargo/a"]);
    let order = topo_order(&packages, &chosen).unwrap();
    assert_eq!(order, vec!["cargo/a", "cargo/z", "cargo/b", "cargo/c", "cargo/d"]);
}

#[test]
fn topo_order_ignores_dependencies_outside_the_selection() {
    let a = package("a", &["cargo/external"]);
    let b = package("b", &["cargo/a"]);
    let packages = vec![b, a];
    let chosen = selection(&["cargo/b", "cargo/a", "cargo/a"]);
    let order = topo_order(&packages, &chosen).unwrap();
    assert_eq!(order, vec!["cargo/a", "cargo/b"]);
}

#[test]
fn topo_order_of_nothing_is_empty() {
    let packages: Vec<PackageInfo> = Vec::new();
    let chosen: Vec<String> = Vec::new();
    assert_eq!(topo_order(&packages, &chosen).unwrap(), Vec::<String>::new());
}

#[test]
fn topo_order_self_dependency_is_a_cycle() {
    let a = package("a", &["cargo/a"]);
    let packages = vec![a];
    let chosen = selection(&["cargo/a"]);
    assert!(topo_order(&packages, &chosen).is_err());
}

#[test]
fn ready_packages_go_by_name_then_as_they_become_ready() {
    let packages = vec![
        package("x", &[]),
        package("a", &["cargo/x"]),
        package("b", &[]),
        package("c", &["cargo/b", "cargo/x"]),
    ];
    let chosen = selection(&["cargo/x", "cargo/a", "cargo/c", "cargo/b"]);
    let order = topo_order(&packages, &chosen).unwrap();
    assert_eq!(order, vec!["cargo/b", "cargo/x", "cargo/a", "cargo/c"]);
}
