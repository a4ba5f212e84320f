use sampo_core::config::Config;
use sampo_core::errors::SampoError;
use sampo_core::git::resolve_branch;
use sampo_core::publish::{
    check_internal_dependencies, check_release_branch, group_by_kind, nothing_to_publish, pending_publications,
    publish_runs, reported_tag, unpublished_tag_candidates,
};
use sampo_core::types::{PackageInfo, PackageKind};

fn package(kind: PackageKind, name: &str, deps: &[&str]) -> PackageInfo {
    PackageInfo {
        name: name.to_string(),
        identifier: format!("{}/{}", kind.as_str(), name),
        version: "0.1.0".to_string(),
        path: format!("/ws/{}", name),
        internal_deps: deps.iter().map(|d| d.to_string()).collect(),
        internal_dev_deps: Vec::new(),
        kind,
    }
}

#[test]
fn release_branch_check_refuses_other_branches() {
    let config = Config {
        git_release_branches: vec!["main".to_string(), "3.x".to_string()],
        ..Default::default()
    };
    match check_release_branch(&config, "feature") {
        Err(SampoError::Release(message)) => assert_eq!(
            message,
            "Branch 'feature' is not configured for publishing (allowed: [\"3.x\", \"main\"])"
        ),
        other => panic!("expected a release error, got {:?}", other),
    }
    assert!(check_release_branch(&config, "3.x").is_ok());
    assert!(check_release_branch(&config, "main").is_ok());
}

#[test]
fn release_branch_check_escapes_quotes_in_the_list() {
    let config = Config {
        git_default_branch: Some("a\"b".to_string()),
        ..Default::default()
    };
    match check_release_branch(&config, "main") {
        Err(SampoError::Release(message)) => assert_eq!(
            message,
            "Branch 'main' is not configured for publishing (allowed: [\"a\\\"b\"])"
        ),
        other => panic!("expected a release error, got {:?}", other),
    }
}

#[test]
fn internal_dependencies_must_be_publishable() {
    let members = vec![
        package(PackageKind::Cargo, "a", &[]),
        package(PackageKind::Cargo, "b", &["cargo/a", "cargo/c"]),
        package(PackageKind::Cargo, "c", &[]),
    ];
    assert!(check_internal_dependencies(&members, &[true, true, true]).is_ok());
    match check_internal_dependencies(&members, &[true, true, false]) {
        Err((SampoError::Publish(message), problems)) => {
            assert_eq!(message, "cannot publish due to non-publishable internal dependencies");
            assert_eq!(
                problems,
                vec!["package 'b' depends on internal package 'cargo/c' which is not publishable"]
            );
        }
        other => panic!("expected a refusal, got {:?}", other),
    }
    // An unpublishable package may depend on anything.
    assert!(check_internal_dependencies(&members, &[true, false, false]).is_ok());
}

#[test]
fn packages_already_on_the_registry_are_not_published() {
    assert_eq!(
        pending_publications(&[Some(true), Some(false), None, Some(true)]),
        vec![1, 2]
    );
    assert!(pending_publications(&[Some(true)]).is_empty());
}

#[test]
fn publish_targets_are_grouped_by_ecosystem() {
    let groups = group_by_kind(&[
        PackageKind::Npm,
        PackageKind::Cargo,
        PackageKind::Npm,
        PackageKind::Maven,
    ]);
    assert_eq!(
        groups,
        vec![
            (PackageKind::Cargo, vec![1]),
            (PackageKind::Npm, vec![0, 2]),
            (PackageKind::Maven, vec![3]),
        ]
    );
    assert!(group_by_kind(&[]).is_empty());
}

#[test]
fn only_untagged_private_packages_are_tagged_without_publishing() {
    let ignored = [false, true, false, false];
    let publishable = [false, false, true, false];
    let tagged = [false, false, false, true];
    assert_eq!(unpublished_tag_candidates(&ignored, &publishable, &tagged), vec![0]);
}

#[test]
fn reported_tags_follow_the_run_mode() {
    let config = Config::default();
    assert_eq!(
        reported_tag(&config, "foo", "1.2.0", true, false, false),
        Some("foo-v1.2.0".to_string())
    );
    assert_eq!(reported_tag(&config, "foo", "1.2.0", true, true, true), None);
    assert_eq!(
        reported_tag(&config, "foo", "1.2.0", false, true, true),
        Some("foo-v1.2.0".to_string())
    );
    assert_eq!(reported_tag(&config, "foo", "1.2.0", false, false, false), None);
}

#[test]
fn branch_comes_from_overrides_then_git() {
    assert_eq!(resolve_branch(Some(" release "), Some("ci"), None).unwrap(), "release");
    assert_eq!(resolve_branch(Some("  "), Some("ci"), None).unwrap(), "ci");
    assert_eq!(resolve_branch(None, None, Some("refs/heads/main\n")).unwrap(), "main");
    match resolve_branch(None, None, Some("HEAD\n")) {
        Err(SampoError::Release(m)) => assert_eq!(m, "Unable to determine current git branch (detached HEAD)"),
        other => panic!("unexpected {:?}", other),
    }
    match resolve_branch(None, None, None) {
        Err(SampoError::Release(m)) => {
            assert_eq!(m, "Unable to determine current git branch (git rev-parse failed)")
        }
        other => panic!("unexpected {:?}", other),
    }
}

#[test]
fn publish_runs_validate_by_ecosystem_then_publish_in_order() {
    let kinds = [PackageKind::Npm, PackageKind::Cargo, PackageKind::Npm];
    assert_eq!(
        publish_runs(&kinds, false),
        vec![(1, true), (0, true), (2, true), (0, false), (1, false), (2, false)]
    );
    assert_eq!(publish_runs(&kinds, true), vec![(0, true), (1, true), (2, true)]);
    assert!(publish_runs(&[], false).is_empty());
}

#[test]
fn nothing_to_publish_when_every_member_is_ignored() {
    assert!(nothing_to_publish(&[true, true]));
    assert!(nothing_to_publish(&[]));
    assert!(!nothing_to_publish(&[true, false]));
}
