use sampo_core::errors::SampoError;
use sampo_core::maven::settle_inherited_versions;
use sampo_core::maven::{
    classify_version, implicit_fixed_groups, is_snapshot_version, is_static_version, publish_args,
    registry_url, split_coordinates, validate_release_plan, EffectiveVersion, VersionLink,
};
use sampo_core::types::{PackageInfo, PackageKind};

#[test]
fn registry_url_maps_group_dots_to_path_segments() {
    assert_eq!(
        registry_url("com.example", "my-lib", "1.0.0"),
        "https://repo1.maven.org/maven2/com/example/my-lib/1.0.0/my-lib-1.0.0.pom"
    );
}

#[test]
fn split_coordinates_requires_group_and_artifact() {
    assert_eq!(
        split_coordinates("com.example/my-lib").unwrap(),
        ("com.example".to_string(), "my-lib".to_string())
    );
    assert!(split_coordinates("my-lib").is_err());
    assert!(split_coordinates("/my-lib").is_err());
    assert!(split_coordinates("com.example/").is_err());
}

#[test]
fn publish_args_injects_guarded_flags() {
    assert_eq!(
        publish_args(false, &[]),
        vec!["--batch-mode", "--non-recursive", "deploy"]
    );
    assert_eq!(
        publish_args(true, &[]),
        vec!["--batch-mode", "--non-recursive", "verify"]
    );

    // User-supplied flags win over the injected ones.
    let args = publish_args(false, &["-B".to_string(), "-N".to_string()]);
    assert_eq!(args, vec!["deploy", "-B", "-N"]);

    let args = publish_args(false, &["-DskipTests".to_string()]);
    assert_eq!(
        args,
        vec!["--batch-mode", "--non-recursive", "deploy", "-DskipTests"]
    );
}

fn maven_member(name: &str, version: &str) -> PackageInfo {
    PackageInfo {
        name: name.into(),
        identifier: format!("maven/{}", name),
        version: version.into(),
        path: format!("/repo/{}", name),
        internal_deps: Vec::new(),
        internal_dev_deps: Vec::new(),
        kind: PackageKind::Maven,
    }
}

fn inherits_from(parent: &str) -> Option<VersionLink> {
    Some(VersionLink {
        inherits: true,
        parent_key: Some(parent.to_string()),
    })
}

fn own_version() -> Option<VersionLink> {
    Some(VersionLink {
        inherits: false,
        parent_key: None,
    })
}

fn release_plan(child: &str, parent: &str) -> Vec<(String, String)> {
    vec![
        ("maven/com.example/core".to_string(), child.to_string()),
        ("maven/com.example/parent".to_string(), parent.to_string()),
    ]
}

#[test]
fn validate_release_plan_tells_a_stale_parent_from_diverging_bumps() {
    let members = vec![
        maven_member("com.example/parent", "1.0.0"),
        maven_member("com.example/core", "1.0.0"),
    ];
    let links = vec![own_version(), inherits_from("com.example/parent")];
    let err = validate_release_plan(&members, &links, &release_plan("1.0.1", "2.0.0")).unwrap_err();
    let message = err.to_string();
    assert!(
        message.contains("planned bumps diverged") && !message.contains("out of date"),
        "expected the divergence diagnosis, got: {message}"
    );
}

#[test]
fn validate_release_plan_reports_a_stale_parent_version() {
    let members = vec![
        maven_member("com.example/parent", "1.1.0"),
        maven_member("com.example/core", "1.0.0"),
    ];
    let links = vec![own_version(), inherits_from("com.example/parent")];
    match validate_release_plan(&members, &links, &release_plan("1.0.1", "1.2.0")) {
        Err(SampoError::Release(m)) => assert_eq!(
            m,
            "'com.example/core' inherits its version from 'com.example/parent', but is planned for 1.0.1 while the parent releases 1.2.0; its <parent><version> is out of date, sync it with the parent POM or declare an explicit <version>"
        ),
        other => panic!("unexpected result: {other:?}"),
    }
    assert!(validate_release_plan(&members, &links, &release_plan("1.2.0", "1.2.0")).is_ok());
}

#[test]
fn validate_release_plan_rejects_snapshots_first() {
    let members = vec![
        maven_member("com.example/parent", "1.0.0"),
        maven_member("com.example/core", "1.0.0"),
    ];
    let links = vec![own_version(), inherits_from("com.example/other")];
    match validate_release_plan(&members, &links, &release_plan("1.0.1", "2.0.0-SNAPSHOT")) {
        Err(SampoError::Release(m)) => assert_eq!(
            m,
            "'com.example/parent' would be versioned 2.0.0-SNAPSHOT; Sampo manages static release versions and has no snapshot cycle, use a pre-release identifier like alpha, beta or rc instead of SNAPSHOT"
        ),
        other => panic!("unexpected result: {other:?}"),
    }
    match validate_release_plan(&members, &links, &release_plan("1.0.1", "2.0.0")) {
        Err(SampoError::Release(m)) => assert!(m.contains("outside this workspace"), "{m}"),
        other => panic!("unexpected result: {other:?}"),
    }
    let plan = vec![("maven/com.example/core".to_string(), "1.0.1".to_string())];
    let links = vec![own_version(), inherits_from("com.example/parent")];
    match validate_release_plan(&members, &links, &plan) {
        Err(SampoError::Release(m)) => assert!(m.contains("not part of this release"), "{m}"),
        other => panic!("unexpected result: {other:?}"),
    }
}

#[test]
fn implicit_fixed_groups_pair_children_with_parents() {
    let members = vec![
        maven_member("com.example/parent", "1.0.0"),
        maven_member("com.example/core", "1.0.0"),
        maven_member("com.example/api", "1.0.0"),
        maven_member("com.example/tool", "1.0.0"),
    ];
    let links = vec![
        own_version(),
        inherits_from("com.example/parent"),
        inherits_from("org.other/parent"),
        None,
    ];
    assert_eq!(
        implicit_fixed_groups(&members, &links),
        vec![vec![
            "maven/com.example/core".to_string(),
            "maven/com.example/parent".to_string()
        ]]
    );
}

#[test]
fn versions_are_classified_for_management() {
    assert_eq!(classify_version("  "), EffectiveVersion::Absent);
    assert_eq!(
        classify_version(" 1.2.3 "),
        EffectiveVersion::Static("1.2.3".to_string())
    );
    assert!(matches!(
        classify_version("${revision}"),
        EffectiveVersion::Unmanageable(v, _) if v == "${revision}"
    ));
    assert!(matches!(
        classify_version("1.0-SNAPSHOT"),
        EffectiveVersion::Unmanageable(_, why) if why.contains("-SNAPSHOT")
    ));
    assert!(is_static_version("1.0"));
    assert!(!is_static_version("[1.0,2.0)"));
    assert!(!is_static_version("(,1.0]"));
    assert!(!is_static_version("${dep.version}"));
    assert!(!is_static_version(" "));
    assert!(is_snapshot_version("2.0-SNAPSHOT "));
    assert!(!is_snapshot_version("2.0-snapshot"));
}

fn unplanned_member(name: &str) -> sampo_core::types::PackageInfo {
    sampo_core::types::PackageInfo {
        name: name.to_string(),
        identifier: format!("maven/{}", name),
        version: "1.0.0".to_string(),
        path: format!("/ws/{}", name),
        internal_deps: vec![],
        internal_dev_deps: Vec::new(),
        kind: sampo_core::types::PackageKind::Maven,
    }
}

#[test]
fn excluded_children_follow_their_released_parent() {
    let members = vec![unplanned_member("g/parent"), unplanned_member("g/child"), unplanned_member("g/grandchild"), unplanned_member("g/own")];
    let links = vec![
        None,
        Some(VersionLink { inherits: true, parent_key: Some("g/parent".to_string()) }),
        Some(VersionLink { inherits: true, parent_key: Some("g/child".to_string()) }),
        Some(VersionLink { inherits: false, parent_key: Some("g/parent".to_string()) }),
    ];
    let plan = vec![("g/parent".to_string(), "2.0.0".to_string()), ("other/x".to_string(), "9.9.9".to_string())];
    let (settled, excluded) = settle_inherited_versions(&members, &links, &plan);
    assert_eq!(
        settled,
        vec![
            ("g/parent".to_string(), "2.0.0".to_string()),
            ("g/child".to_string(), "2.0.0".to_string()),
            ("g/grandchild".to_string(), "2.0.0".to_string()),
        ]
    );
    assert_eq!(excluded, vec![1, 2]);
}
