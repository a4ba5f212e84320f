use sampo_core::composer::{update_manifest_versions, ComposerJsonFields};
use sampo_core::errors::SampoError;
use sampo_core::npm::JsonSpan;
use serde_json::value::RawValue;
use std::collections::BTreeMap;

/// The spans of a raw JSON value inside `source`, in characters.
fn span_of(raw: &RawValue, source: &str) -> JsonSpan {
    let slice = raw.get();
    let byte = slice.as_ptr() as usize - source.as_ptr() as usize;
    let start = source[..byte].chars().count();
    JsonSpan {
        start,
        end: start + slice.chars().count(),
        text: serde_json::from_str::<String>(slice).map_err(|e| e.to_string()),
    }
}

fn fields(input: &str) -> ComposerJsonFields {
    let top: BTreeMap<String, &RawValue> = serde_json::from_str(input).unwrap();
    let section = |key: &str| {
        top.get(key).map(|raw| {
            let m: BTreeMap<String, &RawValue> = serde_json::from_str(raw.get()).unwrap();
            m.into_iter().map(|(k, v)| (k, span_of(v, input))).collect::<Vec<_>>()
        })
    };
    ComposerJsonFields {
        version: top.get("version").map(|raw| span_of(raw, input)),
        require: section("require"),
        require_dev: section("require-dev"),
    }
}

fn update(
    input: &str,
    new_pkg_version: Option<&str>,
    versions: &BTreeMap<String, String>,
) -> Result<(String, Vec<(String, String)>), SampoError> {
    let entries: Vec<(String, String)> = versions.iter().map(|(k, v)| (k.clone(), v.clone())).collect();
    update_manifest_versions("composer.json", input, new_pkg_version, &entries)
}

#[test]
fn packagist_tests_update_manifest_versions_updates_version() {
    let input = r#"{
    "name": "vendor/package",
    "version": "1.0.0",
    "require": {}
}"#;
    let (output, applied) = update(input, Some("2.0.0"), &BTreeMap::new()).unwrap();
    assert!(output.contains(r#""version": "2.0.0""#));
    assert!(applied.is_empty());
}

#[test]
fn packagist_tests_update_manifest_versions_updates_dependencies() {
    let input = r#"{
    "name": "vendor/package",
    "version": "1.0.0",
    "require": {
        "other/dep": "^1.0.0"
    }
}"#;
    let mut versions = BTreeMap::new();
    versions.insert("other/dep".to_string(), "2.0.0".to_string());
    let (output, applied) = update(input, None, &versions).unwrap();
    assert!(output.contains(r#""other/dep": "^2.0.0""#));
    assert_eq!(applied.len(), 1);
    assert_eq!(applied[0].0, "other/dep");
    assert_eq!(applied[0].1, "2.0.0");
}

#[test]
fn update_manifest_versions_updates_dev_dependencies() {
    let input = r#"{
    "name": "vendor/package",
    "version": "1.0.0",
    "require-dev": {
        "dev/package": "^1.0.0"
    }
}"#;
    let mut versions = BTreeMap::new();
    versions.insert("dev/package".to_string(), "3.0.0".to_string());
    let (output, applied) = update(input, None, &versions).unwrap();
    assert!(output.contains(r#""dev/package": "^3.0.0""#));
    assert_eq!(applied.len(), 1);
}

#[test]
fn update_manifest_versions_preserves_tilde_constraint() {
    let input = r#"{
    "name": "vendor/package",
    "version": "1.0.0",
    "require": {
        "other/dep": "~1.0.0"
    }
}"#;
    let mut versions = BTreeMap::new();
    versions.insert("other/dep".to_string(), "2.0.0".to_string());
    let (output, _) = update(input, None, &versions).unwrap();
    assert!(output.contains(r#""other/dep": "~2.0.0""#));
}

#[test]
fn update_manifest_versions_no_changes_when_same_version() {
    let input = r#"{
    "name": "vendor/package",
    "version": "1.0.0",
    "require": {
        "other/dep": "^1.0.0"
    }
}"#;
    let mut versions = BTreeMap::new();
    versions.insert("other/dep".to_string(), "1.0.0".to_string());
    let (output, applied) = update(input, Some("1.0.0"), &versions).unwrap();
    assert_eq!(output, input);
    assert!(applied.is_empty());
}

#[test]
fn composer_without_version_keeps_its_text() {
    let input = r#"{"name": "vendor/package"}"#;
    let (output, applied) = update(input, Some("2.0.0"), &BTreeMap::new()).unwrap();
    assert_eq!(output, input);
    assert!(applied.is_empty());
}

#[test]
fn composer_rejects_non_string_constraints() {
    let input = r#"{"require": {"other/dep": 1}}"#;
    let mut versions = BTreeMap::new();
    versions.insert("other/dep".to_string(), "2.0.0".to_string());
    match update(input, None, &versions) {
        Err(SampoError::Release(m)) => assert!(m.starts_with(
            "Dependency specifier for 'other/dep' in composer.json.require is not a string: "
        )),
        other => panic!("unexpected {:?}", other),
    }
}
