use sampo_core::config::Config;
use sampo_core::errors::{SampoError, WorkspaceError};
use sampo_core::manifest::compute_workspace_dependency_version;
use sampo_core::parse::{parse_json, parse_toml, parse_yaml, read_document, Format};
use sampo_core::pom::{parent_walk_step, parse_pom, ParentWalkStep};
use sampo_core::registry::RegistryReply;
use sampo_core::tree::Value;

fn check_keeps_workspace_dependency_shorthand_for_patch_bump() {
    assert!(compute_workspace_dependency_version("0.1", "0.1.14").is_none());
}

fn check_updates_workspace_dependency_shorthand_for_minor_bump() {
    let resolved = compute_workspace_dependency_version("0.1", "0.2.0").expect("minor bump should rewrite shorthand");
    assert_eq!(resolved, "0.2");
}

fn check_updates_workspace_dependency_major_shorthand() {
    let resolved = compute_workspace_dependency_version("1", "2.0.0").expect("major bump should rewrite shorthand");
    assert_eq!(resolved, "2");
}

fn check_skips_workspace_dependency_with_wildcard_version() {
    assert!(compute_workspace_dependency_version("*", "0.2.0").is_none());
}

#[test]
fn cargo_tests_keeps_workspace_dependency_shorthand_for_patch_bump() {
    check_keeps_workspace_dependency_shorthand_for_patch_bump();
}

#[test]
fn manifest_keeps_workspace_dependency_shorthand_for_patch_bump() {
    check_keeps_workspace_dependency_shorthand_for_patch_bump();
}

#[test]
fn cargo_tests_updates_workspace_dependency_shorthand_for_minor_bump() {
    check_updates_workspace_dependency_shorthand_for_minor_bump();
}

#[test]
fn manifest_updates_workspace_dependency_shorthand_for_minor_bump() {
    check_updates_workspace_dependency_shorthand_for_minor_bump();
}

#[test]
fn cargo_tests_updates_workspace_dependency_major_shorthand() {
    check_updates_workspace_dependency_major_shorthand();
}

#[test]
fn manifest_updates_workspace_dependency_major_shorthand() {
    check_updates_workspace_dependency_major_shorthand();
}

#[test]
fn cargo_tests_skips_workspace_dependency_with_wildcard_version() {
    check_skips_workspace_dependency_with_wildcard_version();
}

#[test]
fn manifest_skips_workspace_dependency_with_wildcard_version() {
    check_skips_workspace_dependency_with_wildcard_version();
}

#[test]
fn is_publishable_requires_name_and_version() {
    let err = sampo_core::pip::publishable_from_text("pyproject.toml", "\n[project]\nversion = \"0.1.0\"\n").unwrap_err();
    assert!(err.to_string().contains("missing a project.name"));
    let err = sampo_core::pip::publishable_from_text("pyproject.toml", "\n[project]\nname = \"example\"\n").unwrap_err();
    assert!(err.to_string().contains("missing a project.version"));
}

#[test]
fn is_publishable_accepts_valid_package() {
    let text = "\n[project]\nname = \"example\"\nversion = \"0.1.0\"\n";
    assert!(sampo_core::pip::publishable_from_text("pyproject.toml", text).unwrap());
}

#[test]
fn defaults_ignore_options() {
    let config = Config::default();
    assert!(!config.ignore_unpublished);
    assert!(config.ignore.is_empty());
}

#[test]
fn defaults_empty_fixed_dependencies() {
    assert!(Config::default().fixed_dependencies.is_empty());
}

#[test]
fn defaults_empty_linked_dependencies() {
    assert!(Config::default().linked_dependencies.is_empty());
}

#[test]
fn defaults_short_tags_to_none() {
    assert!(Config::default().git_short_tags.is_none());
}

#[test]
fn config_text_is_read_and_checked() {
    let config = Config::from_toml_text("[packages]\nfixed = [[\"pkg-a\", \"pkg-b\"], [\"pkg-c\"]]\n").unwrap();
    assert_eq!(
        config.fixed_dependencies,
        vec![vec!["pkg-a".to_string(), "pkg-b".to_string()], vec!["pkg-c".to_string()]]
    );
    match Config::from_toml_text("[packages\n") {
        Err(SampoError::Config(m)) => assert!(m.starts_with("invalid config.toml: ")),
        other => panic!("unexpected {:?}", other.is_ok()),
    }
    match Config::from_toml_text("[packages]\nfixed = [[\"a\"]]\nlinked = [[\"a\"]]\n") {
        Err(SampoError::Config(m)) => assert_eq!(m, "Package 'a' cannot appear in both packages.fixed and packages.linked"),
        other => panic!("unexpected {:?}", other.is_ok()),
    }
}

#[test]
fn documents_read_in_each_format() {
    match parse_toml("a = 1\nb = \"x\"\n").unwrap() {
        Value::Table(entries) => {
            assert_eq!(entries.len(), 2);
            assert!(matches!(entries[0].1, Value::Int(1)));
        }
        other => panic!("unexpected {:?}", other),
    }
    assert!(matches!(parse_json("[true, 2]").unwrap(), Value::List(_)));
    assert!(matches!(parse_yaml("packages:\n  - 'a/*'\n").unwrap(), Value::Table(_)));
    assert!(parse_json("{").is_err());
    match read_document(Format::Json, "/r/package.json", "{") {
        Err(WorkspaceError::InvalidManifest(m)) => assert!(m.starts_with("/r/package.json: ")),
        other => panic!("unexpected {:?}", other.is_ok()),
    }
}

#[test]
fn cargo_manifest_text_that_is_no_toml_is_invalid_data() {
    match sampo_core::cargo::is_publishable("/c/Cargo.toml", "[package") {
        Err(SampoError::InvalidData(m)) => assert!(m.starts_with("invalid TOML in /c/Cargo.toml: ")),
        other => panic!("unexpected {:?}", other.is_ok()),
    }
    assert!(!sampo_core::cargo::is_publishable("/c/Cargo.toml", "[package]\nname = \"a\"\npublish = false\n").unwrap());
    assert!(sampo_core::cargo::is_publishable("/c/Cargo.toml", "[package]\nname = \"a\"\n").unwrap());
    assert!(!sampo_core::cargo::is_publishable("/c/Cargo.toml", "[workspace]\n").unwrap());
}

#[test]
fn cargo_publish_arguments() {
    let extra = vec!["--allow-dirty".to_string()];
    assert_eq!(
        sampo_core::cargo::publish_args("/c/Cargo.toml", true, &extra),
        vec!["publish", "--manifest-path", "/c/Cargo.toml", "--dry-run", "--allow-dirty"]
    );
    assert_eq!(sampo_core::cargo::publish_args("/c/Cargo.toml", false, &[]), vec!["publish", "--manifest-path", "/c/Cargo.toml"]);
}

#[test]
fn json_manifests_that_do_not_parse_are_refused() {
    match sampo_core::npm::publishable_from_text("/n/package.json", "{") {
        Err(SampoError::Workspace(WorkspaceError::InvalidManifest(m))) => assert!(m.starts_with("/n/package.json: ")),
        other => panic!("unexpected {:?}", other.is_ok()),
    }
    assert!(!sampo_core::npm::publishable_from_text("/n/package.json", "{\"name\": \"a\", \"private\": true}").unwrap());
    match sampo_core::packagist::publishable_from_text("/p/composer.json", "{") {
        Err(SampoError::Publish(m)) => assert!(m.starts_with("Invalid JSON in /p/composer.json: ")),
        other => panic!("unexpected {:?}", other.is_ok()),
    }
    match sampo_core::npm::update_manifest_versions("/n/package.json", "[1", None, &[]) {
        Err(SampoError::Release(m)) => assert!(m.starts_with("Failed to parse package.json /n/package.json: ")),
        other => panic!("unexpected {:?}", other.is_ok()),
    }
}

#[test]
fn pom_update_refuses_text_that_is_no_pom() {
    match sampo_core::pom::update_manifest_versions("/m/pom.xml", "<settings/>", Some("1.0.0"), &[]) {
        Err(SampoError::Release(m)) => assert_eq!(m, "Manifest /m/pom.xml is not a valid Maven POM"),
        other => panic!("unexpected {:?}", other.is_ok()),
    }
}

#[test]
fn deploy_skip_walk_steps() {
    let module = parse_pom(
        "<project><parent><groupId>g</groupId><artifactId>p</artifactId><version>1</version></parent><artifactId>a</artifactId></project>",
    )
    .unwrap();
    match parent_walk_step(&None, &module, true, false) {
        ParentWalkStep::Follow { location, expected } => {
            assert_eq!(location, "../pom.xml");
            assert_eq!(expected.as_deref(), Some("g/p"));
        }
        other => panic!("unexpected {:?}", other),
    }
    let parent = parse_pom(
        "<project><groupId>g</groupId><artifactId>p</artifactId><version>1</version><properties><maven.deploy.skip>true</maven.deploy.skip></properties></project>",
    )
    .unwrap();
    assert!(matches!(parent_walk_step(&Some("g/p".to_string()), &parent, false, false), ParentWalkStep::Found(true)));
    assert!(matches!(parent_walk_step(&Some("other/x".to_string()), &parent, false, false), ParentWalkStep::Stop));
}

#[test]
fn registry_reply_reads_its_body_as_json() {
    let reply = RegistryReply::from_response("u".to_string(), 200, "200 OK".to_string(), "{\"a\": 1}".to_string(), None);
    assert!(matches!(reply.json, Ok(Value::Table(_))));
    let broken = RegistryReply::from_response("u".to_string(), 500, "500".to_string(), "oops".to_string(), None);
    assert!(broken.json.is_err());
}
