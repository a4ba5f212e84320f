use sampo_core::errors::SampoError;
use sampo_core::prerelease::{
    enter_prerelease, exit_prerelease, resolve_targets, validate_label, VersionChange,
};
use sampo_core::types::{PackageInfo, PackageKind, Workspace};

fn member(name: &str, version: &str) -> PackageInfo {
    PackageInfo {
        name: name.into(),
        identifier: format!("cargo/{}", name),
        version: version.into(),
        path: format!("/repo/crates/{}", name),
        internal_deps: Vec::new(),
        internal_dev_deps: Vec::new(),
        kind: PackageKind::Cargo,
    }
}

fn workspace(members: Vec<PackageInfo>) -> Workspace {
    Workspace {
        root: "/repo".into(),
        members,
    }
}

fn change(name: &str, old: &str, new: &str) -> VersionChange {
    VersionChange {
        name: name.into(),
        old_version: old.into(),
        new_version: new.into(),
    }
}

#[test]
fn enter_sets_prerelease_label_and_updates_dependents() {
    let ws = workspace(vec![member("foo", "1.2.3"), member("bar", "0.1.0")]);
    let updates = enter_prerelease(&ws, &[String::from("foo")], "alpha").unwrap();
    assert_eq!(updates, vec![change("foo", "1.2.3", "1.2.3-alpha")]);
}

#[test]
fn enter_switches_between_labels() {
    let ws = workspace(vec![member("foo", "1.0.0-beta.3")]);
    let updates = enter_prerelease(&ws, &[String::from("foo")], "alpha").unwrap();
    assert_eq!(updates, vec![change("foo", "1.0.0-beta.3", "1.0.0-alpha")]);
}

#[test]
fn enter_rejects_numeric_only_label() {
    let ws = workspace(vec![member("foo", "0.1.0")]);
    let err = enter_prerelease(&ws, &[String::from("foo")], "123").unwrap_err();
    match err {
        SampoError::Prerelease(msg) => {
            assert!(msg.contains("non-numeric"));
        }
        other => panic!("unexpected error: {other:?}"),
    }
}

#[test]
fn exit_clears_prerelease_and_updates_dependents() {
    let ws = workspace(vec![member("foo", "2.3.4-alpha.5"), member("bar", "0.2.0")]);
    let updates = exit_prerelease(&ws, &[String::from("foo")]).unwrap();
    assert_eq!(updates, vec![change("foo", "2.3.4-alpha.5", "2.3.4")]);
}

#[test]
fn enter_leaves_packages_already_on_the_label() {
    let ws = workspace(vec![member("foo", "1.0.0-rc"), member("bar", "2.0.0+build.7")]);
    let updates = enter_prerelease(
        &ws,
        &[String::from(" foo "), String::from("bar"), String::from("foo")],
        " rc ",
    )
    .unwrap();
    assert_eq!(updates, vec![change("bar", "2.0.0+build.7", "2.0.0-rc")]);
}

#[test]
fn exit_skips_stable_versions_and_orders_by_name() {
    let ws = workspace(vec![
        member("zeta", "1.0.0-beta"),
        member("alpha", "3.1.4-rc.1+meta"),
        member("mid", "0.9.0"),
    ]);
    let updates = exit_prerelease(
        &ws,
        &[String::from("zeta"), String::from("mid"), String::from("alpha")],
    )
    .unwrap();
    assert_eq!(
        updates,
        vec![
            change("alpha", "3.1.4-rc.1+meta", "3.1.4"),
            change("zeta", "1.0.0-beta", "1.0.0"),
        ]
    );
}

#[test]
fn prerelease_requires_packages_that_exist() {
    let ws = workspace(vec![member("foo", "1.0.0")]);
    match enter_prerelease(&ws, &[], "alpha") {
        Err(SampoError::Prerelease(m)) => {
            assert_eq!(m, "At least one package must be specified.")
        }
        other => panic!("unexpected result: {other:?}"),
    }
    match exit_prerelease(&ws, &[String::from("  ")]) {
        Err(SampoError::Prerelease(m)) => assert_eq!(m, "Package names cannot be empty."),
        other => panic!("unexpected result: {other:?}"),
    }
    match exit_prerelease(&ws, &[String::from("nope"), String::from(" ")]) {
        Err(SampoError::NotFound(m)) => assert_eq!(m, "Package 'nope' not found in workspace"),
        other => panic!("unexpected result: {other:?}"),
    }
}

#[test]
fn prerelease_reports_unreadable_versions() {
    let ws = workspace(vec![member("foo", "not-a-version")]);
    match exit_prerelease(&ws, &[String::from("foo")]) {
        Err(SampoError::Prerelease(m)) => assert!(
            m.starts_with("Invalid semantic version for package 'foo': "),
            "{m}"
        ),
        other => panic!("unexpected result: {other:?}"),
    }
}

#[test]
fn validate_label_checks_text() {
    assert_eq!(validate_label("  beta.2 ").unwrap(), "beta.2");
    match validate_label("   ") {
        Err(SampoError::Prerelease(m)) => assert_eq!(m, "Pre-release label cannot be empty."),
        other => panic!("unexpected result: {other:?}"),
    }
    match validate_label("1.2") {
        Err(SampoError::Prerelease(m)) => assert!(m.contains("non-numeric")),
        other => panic!("unexpected result: {other:?}"),
    }
    match validate_label("alpha..1") {
        Err(SampoError::Prerelease(m)) => {
            assert!(m.starts_with("Invalid pre-release label 'alpha..1': "), "{m}")
        }
        other => panic!("unexpected result: {other:?}"),
    }
}

#[test]
fn resolve_targets_takes_the_last_member_of_a_name() {
    let members = vec![member("b", "1.0.0"), member("a", "1.0.0"), member("b", "2.0.0")];
    let idx = resolve_targets(&members, &[String::from("b"), String::from("a")]).unwrap();
    assert_eq!(idx, vec![1, 2]);
}
