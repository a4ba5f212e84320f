use sampo_core::errors::{SampoError, WorkspaceError};
use sampo_core::npm::{
    build_registry_url, collect_internal_deps, detect_package_manager, discover_packages,
    encode_package_name, extract_workspace_patterns, is_publishable, load_pnpm_workspace_patterns,
    root_is_member, workspace_patterns,
    parse_manifest_info, parse_package_manager_field, publish_command, rewrite_manifest_versions, update_manifest_versions,
    validate_package_name, JsonSpan, PackageJsonFields, PackageManager,
};
use sampo_core::tree::Value;

fn table(entries: Vec<(&str, Value)>) -> Value {
    Value::Table(entries.into_iter().map(|(k, v)| (k.to_string(), v)).collect())
}

fn text(s: &str) -> Value {
    Value::Str(s.to_string())
}

/// The string value of `"key": "..."`, searching `input` from `from`, with
/// where the search may continue. The inputs here are ASCII, so byte and
/// character positions agree.
fn string_value(input: &str, from: usize, key: &str) -> (JsonSpan, usize) {
    let pattern = format!("\"{}\": ", key);
    let at = from + input[from..].find(&pattern).expect("key present");
    let start = at + pattern.len();
    let close = start + 1 + input[start + 1..].find('"').expect("closing quote");
    let span = JsonSpan {
        start,
        end: close + 1,
        text: Ok(input[start + 1..close].to_string()),
    };
    (span, close + 1)
}

fn section(input: &str, name: &str, keys: &[&str]) -> Vec<(String, JsonSpan)> {
    let mut at = input.find(&format!("\"{}\"", name)).expect("section present");
    let mut entries = Vec::new();
    for key in keys {
        let (span, next) = string_value(input, at, key);
        entries.push((key.to_string(), span));
        at = next;
    }
    entries
}

fn updates(pairs: &[(&str, &str)]) -> Vec<(String, String)> {
    pairs
        .iter()
        .map(|(a, b)| (a.to_string(), b.to_string()))
        .collect()
}

#[test]
fn npm_tests_updates_package_json_versions_preserving_formatting() {
    let input = r#"{
  "name": "app",
  "version": "1.0.0",
  "dependencies": {
    "pkg-a": "^1.0.0",
    "pkg-b": "workspace:*",
    "pkg-c": "file:../pkg-c",
    "pkg-d": "workspace:^1.0.0"
  },
  "devDependencies": {
    "pkg-a": "~1.0.0"
  }
}
"#;
    let updates = updates(&[
        ("pkg-a", "2.0.0"),
        ("pkg-b", "3.0.0"),
        ("pkg-c", "4.0.0"),
        ("pkg-d", "1.5.0"),
    ]);

    let (out, applied) =
        update_manifest_versions("/repo/package.json", input, Some("1.1.0"), &updates)
            .unwrap();

    assert!(out.contains("\"version\": \"1.1.0\""));
    assert!(out.contains("\"pkg-a\": \"^2.0.0\""));
    assert!(out.contains("\"pkg-b\": \"workspace:*\""));
    assert!(out.contains("\"pkg-c\": \"file:../pkg-c\""));
    assert!(out.contains("\"pkg-d\": \"workspace:^1.5.0\""));
    assert!(out.contains("\"pkg-a\": \"~2.0.0\""));
    assert!(applied.contains(&("pkg-a".to_string(), "2.0.0".to_string())));
    assert!(applied.contains(&("pkg-d".to_string(), "1.5.0".to_string())));
    assert!(!applied.iter().any(|(name, _)| name == "pkg-b"));
    assert!(!applied.iter().any(|(name, _)| name == "pkg-c"));
}

#[test]
fn manifest_updates_package_json_versions_preserving_formatting() {
    let input = r#"{
  "name": "app",
  "version": "1.0.0",
  "dependencies": {
    "pkg-a": "^1.0.0",
    "pkg-b": "workspace:*",
    "pkg-c": "file:../pkg-c",
    "pkg-d": "workspace:^1.0.0"
  },
  "devDependencies": {
    "pkg-a": "~1.0.0"
  }
}
"#;
    let updates = updates(&[
        ("pkg-a", "2.0.0"),
        ("pkg-b", "3.0.0"),
        ("pkg-c", "4.0.0"),
        ("pkg-d", "1.5.0"),
    ]);

    let (out, applied) =
        update_manifest_versions("/repo/package.json", input, Some("1.1.0"), &updates)
            .unwrap();

    assert!(out.contains("\"version\": \"1.1.0\""));
    assert!(out.contains("\"pkg-a\": \"^2.0.0\""));
    assert!(out.contains("\"pkg-b\": \"workspace:*\""));
    assert!(out.contains("\"pkg-c\": \"file:../pkg-c\""));
    assert!(out.contains("\"pkg-d\": \"workspace:^1.5.0\""));
    assert!(out.contains("\"pkg-a\": \"~2.0.0\""));
    assert!(applied.contains(&("pkg-a".to_string(), "2.0.0".to_string())));
    assert!(applied.contains(&("pkg-d".to_string(), "1.5.0".to_string())));
    assert!(!applied.iter().any(|(name, _)| name == "pkg-b"));
    assert!(!applied.iter().any(|(name, _)| name == "pkg-c"));
}

#[test]
fn package_json_update_keeps_text_when_nothing_changes() {
    let input = "{\"version\": \"1.0.0\", \"dependencies\": {\"a\": \"*\"}}";
    let (out, applied) = update_manifest_versions(
        "/p/package.json",
        input,
        Some("1.0.0"),
        &updates(&[("a", "2.0.0"), ("missing", "1.0.0")]),
    )
    .unwrap();
    assert_eq!(out, input);
    assert!(applied.is_empty());
}

#[test]
fn package_json_update_rewrites_exact_text() {
    let input = "{\"version\": \"0.1.0\", \"peerDependencies\": {\"x\": \"^0.1.0\"}}";
    let (out, applied) = update_manifest_versions(
        "/p/package.json",
        input,
        Some("0.2.0"),
        &updates(&[("x", "0.2.0")]),
    )
    .unwrap();
    assert_eq!(
        out,
        "{\"version\": \"0.2.0\", \"peerDependencies\": {\"x\": \"^0.2.0\"}}"
    );
    assert_eq!(applied, updates(&[("x", "0.2.0")]));
}

#[test]
fn package_json_update_reports_missing_or_odd_fields() {
    let input = "{\"name\": \"x\"}";
    let empty = PackageJsonFields {
        version: None,
        dependencies: None,
        dev_dependencies: None,
        peer_dependencies: None,
        optional_dependencies: None,
    };
    match rewrite_manifest_versions("/p/package.json", input, &empty, Some("1.0.0"), &[]) {
        Err(SampoError::Release(m)) => {
            assert_eq!(m, "Manifest /p/package.json is missing a version field")
        }
        other => panic!("unexpected result: {other:?}"),
    }
    let odd = PackageJsonFields {
        version: None,
        dependencies: None,
        dev_dependencies: Some(vec![(
            "a".to_string(),
            JsonSpan {
                start: 0,
                end: 1,
                text: Err("invalid type: integer `1`, expected a string".to_string()),
            },
        )]),
        peer_dependencies: None,
        optional_dependencies: None,
    };
    match rewrite_manifest_versions("/p/package.json", input, &odd, None, &updates(&[("a", "1.0.0")])) {
        Err(SampoError::Release(m)) => assert_eq!(
            m,
            "Dependency specifier for 'a' in /p/package.json.devDependencies is not a string: invalid type: integer `1`, expected a string"
        ),
        other => panic!("unexpected result: {other:?}"),
    }
}

#[test]
fn package_manager_field_names_the_tool() {
    assert_eq!(parse_package_manager_field("pnpm@9.1.0"), Some(PackageManager::Pnpm));
    assert_eq!(parse_package_manager_field("  yarn "), Some(PackageManager::Yarn));
    assert_eq!(parse_package_manager_field("bun@1"), Some(PackageManager::Bun));
    assert_eq!(parse_package_manager_field("npm"), Some(PackageManager::Npm));
    assert_eq!(parse_package_manager_field("deno@1"), None);
    assert_eq!(parse_package_manager_field("   "), None);
}

#[test]
fn package_manager_falls_back_to_lock_files() {
    let dirs = vec![
        vec!["src".to_string()],
        vec!["yarn.lock".to_string(), "package-lock.json".to_string()],
        vec!["pnpm-lock.yaml".to_string()],
    ];
    assert_eq!(detect_package_manager(None, &dirs), PackageManager::Yarn);
    assert_eq!(detect_package_manager(Some("bun@1.1"), &dirs), PackageManager::Bun);
    assert_eq!(detect_package_manager(Some("other"), &dirs), PackageManager::Yarn);
    assert_eq!(detect_package_manager(None, &vec![]), PackageManager::Npm);
    let shrinkwrap = vec![vec!["npm-shrinkwrap.json".to_string()]];
    assert_eq!(detect_package_manager(None, &shrinkwrap), PackageManager::Npm);
}

#[test]
fn package_names_follow_npm_rules() {
    assert_eq!(validate_package_name("my-pkg"), Ok(()));
    assert_eq!(validate_package_name("@scope/pkg.name_1"), Ok(()));
    assert_eq!(
        validate_package_name(&"a".repeat(215)),
        Err("package name must be 214 characters or fewer".to_string())
    );
    assert_eq!(
        validate_package_name(".hidden"),
        Err("package name must not start with '.' or '_'".to_string())
    );
    assert_eq!(
        validate_package_name("has space"),
        Err("package name must not contain spaces".to_string())
    );
    assert_eq!(
        validate_package_name("Upper"),
        Err("package name must be lowercase".to_string())
    );
    assert_eq!(
        validate_package_name("@scope"),
        Err("scoped packages must use the form '@scope/name'".to_string())
    );
    assert_eq!(
        validate_package_name("@/pkg"),
        Err("scope name must not be empty".to_string())
    );
    assert_eq!(
        validate_package_name("@_scope/pkg"),
        Err("scope must not start with '.' or '_'".to_string())
    );
    assert_eq!(
        validate_package_name("@scope/p!g"),
        Err("name may only contain lowercase letters, digits, '-', '_', or '.'".to_string())
    );
}

#[test]
fn package_names_are_percent_encoded() {
    assert_eq!(encode_package_name("@scope/pkg"), "%40scope%2Fpkg");
    assert_eq!(encode_package_name("a~b.c_d-e"), "a~b.c_d-e");
    assert_eq!(encode_package_name("A é"), "%41%20%C3%A9");
}

#[test]
fn registry_urls_join_the_encoded_name() {
    assert_eq!(
        build_registry_url("", "@scope/pkg").unwrap(),
        "https://registry.npmjs.org/%40scope%2Fpkg"
    );
    assert_eq!(
        build_registry_url(" https://npm.example.com/custom ", "left-pad").unwrap(),
        "https://npm.example.com/custom/left-pad"
    );
    match build_registry_url("not a url", "x") {
        Err(SampoError::Publish(m)) => assert!(m.starts_with("invalid registry URL 'not a url': "), "{m}"),
        other => panic!("unexpected result: {other:?}"),
    }
}

#[test]
fn manifest_info_reads_name_version_and_settings() {
    let manifest = table(vec![
        ("name", text(" @scope/pkg ")),
        ("version", text("1.2.3")),
        ("packageManager", text("pnpm@9")),
        (
            "publishConfig",
            table(vec![
                ("registry", text(" https://npm.example.com ")),
                ("access", text("  ")),
                ("tag", text("next")),
            ]),
        ),
    ]);
    let info = parse_manifest_info("/p/package.json", &manifest).unwrap();
    assert_eq!(info.name, "@scope/pkg");
    assert_eq!(info.version.as_deref(), Some("1.2.3"));
    assert!(!info.private);
    assert_eq!(info.package_manager.as_deref(), Some("pnpm@9"));
    assert_eq!(
        info.publish_config.registry.as_deref(),
        Some("https://npm.example.com")
    );
    assert_eq!(info.publish_config.access, None);
    assert_eq!(info.publish_config.tag.as_deref(), Some("next"));
}

#[test]
fn manifest_info_errors() {
    match parse_manifest_info("/p/package.json", &table(vec![("version", text("1.0.0"))])) {
        Err(SampoError::Publish(m)) => {
            assert_eq!(m, "Manifest /p/package.json is missing a non-empty 'name' field")
        }
        other => panic!("unexpected result: {other:?}"),
    }
    match parse_manifest_info("/p/package.json", &table(vec![("name", text("Bad"))])) {
        Err(SampoError::Publish(m)) => assert_eq!(
            m,
            "Manifest /p/package.json has invalid package name 'Bad': package name must be lowercase"
        ),
        other => panic!("unexpected result: {other:?}"),
    }
    match parse_manifest_info("/p/package.json", &table(vec![("name", text("ok"))])) {
        Err(SampoError::Publish(m)) => {
            assert_eq!(m, "Manifest /p/package.json is missing a non-empty 'version' field")
        }
        other => panic!("unexpected result: {other:?}"),
    }
    let private = table(vec![("name", text("ok")), ("private", Value::Bool(true))]);
    assert_eq!(is_publishable("/p/package.json", &private).unwrap(), false);
}

#[test]
fn publish_command_adds_configured_flags() {
    let manifest = table(vec![
        ("name", text("@scope/pkg")),
        ("version", text("1.0.0")),
        ("publishConfig", table(vec![("tag", text("beta"))])),
    ]);
    let dirs = vec![vec!["yarn.lock".to_string()]];
    let (program, args) =
        publish_command("/p/package.json", &manifest, &dirs, true, &["--tag".to_string(), "rc".to_string()])
            .unwrap();
    assert_eq!(program, "yarn");
    assert_eq!(
        args,
        vec!["publish", "--dry-run", "--access", "public", "--tag", "rc"]
    );
    let private = table(vec![("name", text("pkg")), ("private", Value::Bool(true))]);
    match publish_command("/p/package.json", &private, &dirs, false, &[]) {
        Err(SampoError::Publish(m)) => {
            assert_eq!(m, "Package 'pkg' is marked as private and cannot be published")
        }
        other => panic!("unexpected result: {other:?}"),
    }
}

fn list(items: &[&str]) -> Value {
    Value::List(items.iter().map(|s| text(s)).collect())
}

#[test]
fn workspace_patterns_come_from_package_json_and_pnpm() {
    let root = table(vec![("workspaces", list(&["packages/*", "apps/web"]))]);
    assert_eq!(
        extract_workspace_patterns(&root).unwrap(),
        vec!["packages/*".to_string(), "apps/web".to_string()]
    );
    let yarn = table(vec![("workspaces", table(vec![("packages", list(&["libs/*"]))]))]);
    assert_eq!(extract_workspace_patterns(&yarn).unwrap(), vec!["libs/*".to_string()]);
    let null_packages = table(vec![(
        "workspaces",
        table(vec![("packages", Value::Other("null".into()))]),
    )]);
    assert!(extract_workspace_patterns(&null_packages).unwrap().is_empty());
    match extract_workspace_patterns(&table(vec![("workspaces", text("x"))])) {
        Err(WorkspaceError::InvalidWorkspace(m)) => {
            assert_eq!(m, "workspaces field must be an array or object")
        }
        other => panic!("unexpected result: {other:?}"),
    }
    match extract_workspace_patterns(&table(vec![("workspaces", Value::List(vec![Value::Int(1)]))])) {
        Err(WorkspaceError::InvalidWorkspace(m)) => assert_eq!(m, "workspaces entries must be strings"),
        other => panic!("unexpected result: {other:?}"),
    }
    let pnpm = table(vec![("packages", list(&["apps/web", "tools/*"]))]);
    assert_eq!(
        load_pnpm_workspace_patterns(&pnpm).unwrap(),
        vec!["apps/web".to_string(), "tools/*".to_string()]
    );
    match load_pnpm_workspace_patterns(&table(vec![("packages", text("x"))])) {
        Err(WorkspaceError::InvalidWorkspace(m)) => assert_eq!(
            m,
            "pnpm-workspace.yaml packages field must be a sequence of strings"
        ),
        other => panic!("unexpected result: {other:?}"),
    }
    assert_eq!(
        workspace_patterns(Some(&root), Some(&pnpm)).unwrap(),
        vec![
            "apps/web".to_string(),
            "packages/*".to_string(),
            "tools/*".to_string()
        ]
    );
    assert!(workspace_patterns(None, None).unwrap().is_empty());
}

#[test]
fn the_root_is_a_member_without_patterns_or_with_a_name() {
    let named = table(vec![("name", text("root"))]);
    let unnamed = table(vec![("private", Value::Bool(true))]);
    assert!(root_is_member(Some(&unnamed), false));
    assert!(!root_is_member(Some(&unnamed), true));
    assert!(root_is_member(Some(&named), true));
    assert!(!root_is_member(None, false));
}

#[test]
fn npm_members_depend_on_each_other_by_name() {
    let a = table(vec![
        ("name", text("pkg-a")),
        ("version", text("1.0.0")),
        ("dependencies", table(vec![("pkg-b", text("workspace:*")), ("left-pad", text("1"))])),
        ("bundleDependencies", list(&["pkg-c"])),
    ]);
    let b = table(vec![("name", text("pkg-b"))]);
    let c = table(vec![
        ("name", text("pkg-c")),
        ("devDependencies", table(vec![("pkg-a", text("*"))])),
    ]);
    let names = vec!["pkg-a".to_string(), "pkg-b".to_string(), "pkg-c".to_string()];
    assert_eq!(
        collect_internal_deps(&a, &names),
        vec!["npm/pkg-b".to_string(), "npm/pkg-c".to_string()]
    );
    let members = vec![
        ("/r/a".to_string(), "/r/a/package.json".to_string(), a),
        ("/r/b".to_string(), "/r/b/package.json".to_string(), b),
        ("/r/c".to_string(), "/r/c/package.json".to_string(), c),
    ];
    let packages = discover_packages(&members).unwrap();
    assert_eq!(packages[0].identifier, "npm/pkg-a");
    assert_eq!(packages[0].version, "1.0.0");
    assert_eq!(packages[1].version, "");
    assert_eq!(packages[2].internal_deps, vec!["npm/pkg-a".to_string()]);
    let broken = vec![("/r/x".to_string(), "/r/x/package.json".to_string(), table(vec![]))];
    match discover_packages(&broken) {
        Err(WorkspaceError::InvalidWorkspace(m)) => {
            assert_eq!(m, "missing name field in /r/x/package.json")
        }
        other => panic!("unexpected result: {other:?}"),
    }
}
