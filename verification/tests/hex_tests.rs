use sampo_core::hex::{check_dependency_constraint, hex_version_satisfies, parse_hex_version, satisfies_hex_comparator, satisfies_pessimistic, split_on_keyword};
use sampo_core::types::ConstraintCheckResult;

fn assert_constraint(constraint: &str, new_version: &str) -> ConstraintCheckResult {
    check_dependency_constraint("test_dep", Some(constraint), new_version)
}

fn assert_satisfied(constraint: &str, version: &str) {
    let result = assert_constraint(constraint, version);
    assert!(
        matches!(result, ConstraintCheckResult::Satisfied),
        "expected '{}' to satisfy '{}', got {:?}",
        version,
        constraint,
        result
    );
}

fn assert_not_satisfied(constraint: &str, version: &str) {
    let result = assert_constraint(constraint, version);
    assert!(
        matches!(result, ConstraintCheckResult::NotSatisfied { .. }),
        "expected '{}' to NOT satisfy '{}', got {:?}",
        version,
        constraint,
        result
    );
}

fn assert_skipped(constraint: &str, version: &str) {
    let result = assert_constraint(constraint, version);
    assert!(
        matches!(result, ConstraintCheckResult::Skipped { .. }),
        "expected '{}' to be skipped for '{}', got {:?}",
        version,
        constraint,
        result
    );
}

#[test]
fn pessimistic_two_part_satisfied() {
    assert_satisfied("~> 2.0", "2.5.0");
}

#[test]
fn pessimistic_two_part_exact_lower_bound() {
    assert_satisfied("~> 2.0", "2.0.0");
}

#[test]
fn pessimistic_two_part_not_satisfied_major_bump() {
    assert_not_satisfied("~> 2.0", "3.0.0");
}

#[test]
fn pessimistic_two_part_not_satisfied_below() {
    assert_not_satisfied("~> 2.1", "2.0.0");
}

#[test]
fn pessimistic_three_part_satisfied() {
    assert_satisfied("~> 2.1.0", "2.1.5");
}

#[test]
fn pessimistic_three_part_exact_lower_bound() {
    assert_satisfied("~> 2.1.0", "2.1.0");
}

#[test]
fn pessimistic_three_part_not_satisfied_minor_bump() {
    assert_not_satisfied("~> 2.1.0", "2.2.0");
}

#[test]
fn pessimistic_three_part_not_satisfied_below() {
    assert_not_satisfied("~> 2.1.3", "2.1.2");
}

#[test]
fn pessimistic_zero_minor_satisfied() {
    assert_satisfied("~> 0.1.0", "0.1.5");
}

#[test]
fn pessimistic_zero_minor_not_satisfied() {
    assert_not_satisfied("~> 0.1.0", "0.2.0");
}

#[test]
fn eq_eq_satisfied() {
    assert_satisfied("== 1.2.3", "1.2.3");
}

#[test]
fn eq_eq_not_satisfied() {
    assert_not_satisfied("== 1.2.3", "1.2.4");
}

#[test]
fn hex_tests_gte_satisfied() {
    assert_satisfied(">= 1.0.0", "2.0.0");
}

#[test]
fn gte_exact_satisfied() {
    assert_satisfied(">= 1.0.0", "1.0.0");
}

#[test]
fn hex_tests_gte_not_satisfied() {
    assert_not_satisfied(">= 2.0.0", "1.9.9");
}

#[test]
fn hex_tests_gt_satisfied() {
    assert_satisfied("> 1.0.0", "1.0.1");
}

#[test]
fn hex_tests_gt_not_satisfied_equal() {
    assert_not_satisfied("> 1.0.0", "1.0.0");
}

#[test]
fn hex_tests_lte_satisfied() {
    assert_satisfied("<= 2.0.0", "2.0.0");
}

#[test]
fn hex_tests_lte_not_satisfied() {
    assert_not_satisfied("<= 2.0.0", "2.0.1");
}

#[test]
fn hex_tests_lt_satisfied() {
    assert_satisfied("< 2.0.0", "1.9.9");
}

#[test]
fn hex_tests_lt_not_satisfied() {
    assert_not_satisfied("< 2.0.0", "2.0.0");
}

#[test]
fn and_conjunction_satisfied() {
    assert_satisfied(">= 1.0.0 and < 2.0.0", "1.5.0");
}

#[test]
fn and_conjunction_not_satisfied() {
    assert_not_satisfied(">= 1.0.0 and < 2.0.0", "2.0.0");
}

#[test]
fn or_conjunction_satisfied_first() {
    assert_satisfied("== 1.0.0 or == 2.0.0", "1.0.0");
}

#[test]
fn or_conjunction_satisfied_second() {
    assert_satisfied("== 1.0.0 or == 2.0.0", "2.0.0");
}

#[test]
fn or_conjunction_not_satisfied() {
    assert_not_satisfied("== 1.0.0 or == 2.0.0", "3.0.0");
}

#[test]
fn invalid_version_skipped() {
    assert_skipped("~> 1.0", "invalid");
}

#[test]
fn empty_version_skipped() {
    assert_skipped("~> 1.0", "");
}

#[test]
fn satisfies_hex_comparator_not_equal_satisfied() {
    assert_satisfied("!= 1.2.3", "2.0.0");
}

#[test]
fn satisfies_hex_comparator_not_equal_not_satisfied() {
    assert_not_satisfied("!= 1.2.3", "1.2.3");
}

#[test]
fn bare_pinned_version_skipped() {
    assert_skipped("1.2.3", "1.2.3");
}

#[test]
fn bare_pinned_different_version_skipped() {
    assert_skipped("1.2.3", "1.2.4");
}

#[test]
fn prerelease_version_skipped() {
    assert_skipped("~> 1.0", "1.0.0-rc.1");
}

#[test]
fn hex_version_satisfies_mixed_and_or() {
    assert_satisfied(">= 1.0.0 and < 2.0.0 or >= 3.0.0", "1.5.0");
    assert_satisfied(">= 1.0.0 and < 2.0.0 or >= 3.0.0", "3.0.0");
    assert_not_satisfied(">= 1.0.0 and < 2.0.0 or >= 3.0.0", "2.5.0");
}

#[test]
fn satisfies_hex_comparator_not_equal_in_conjunction() {
    assert_satisfied("!= 1.0.0 and >= 0.5.0", "0.8.0");
    assert_not_satisfied("!= 1.0.0 and >= 0.5.0", "1.0.0");
}

#[test]
fn dep_not_found_skipped() {
    let result = check_dependency_constraint("nonexistent", None, "1.0.0");
    assert_eq!(
        result,
        ConstraintCheckResult::Skipped { reason: "dependency 'nonexistent' not found in manifest".to_string() }
    );
}

#[test]
fn hex_skip_reasons_are_exact() {
    assert_eq!(
        assert_constraint("   ", "1.0.0"),
        ConstraintCheckResult::Skipped { reason: "empty constraint".to_string() }
    );
    assert_eq!(
        assert_constraint("~> 1.0", "1.0.0-rc.1"),
        ConstraintCheckResult::Skipped { reason: "pre-release version".to_string() }
    );
    assert_eq!(
        assert_constraint("1.2.3", "1.2.3"),
        ConstraintCheckResult::Skipped { reason: "pinned version".to_string() }
    );
    assert_eq!(
        assert_constraint("~> 1.0", " nope "),
        ConstraintCheckResult::Skipped { reason: "unparseable version ' nope '".to_string() }
    );
    assert_eq!(
        assert_constraint(" ~> 1.x ", "1.0.0"),
        ConstraintCheckResult::Skipped { reason: "unparseable constraint '~> 1.x'".to_string() }
    );
    assert_eq!(
        assert_constraint(" >= 1.0.0 AND < 2.0.0 ", " 3.0.0 "),
        ConstraintCheckResult::NotSatisfied {
            constraint: ">= 1.0.0 AND < 2.0.0".to_string(),
            new_version: "3.0.0".to_string()
        }
    );
}

#[test]
fn parse_hex_version_reads_two_and_three_parts() {
    assert_eq!(parse_hex_version(" 1.2.3 "), Some((1, 2, 3)));
    assert_eq!(parse_hex_version("1.2"), Some((1, 2, 0)));
    assert_eq!(parse_hex_version("1.2.3-rc.1"), Some((1, 2, 3)));
    assert_eq!(parse_hex_version("+1.2.3"), Some((1, 2, 3)));
    assert_eq!(parse_hex_version("1"), None);
    assert_eq!(parse_hex_version("1.2.3.4"), None);
    assert_eq!(parse_hex_version(""), None);
    assert_eq!(parse_hex_version("18446744073709551616.0"), None);
}

#[test]
fn pessimistic_bounds_are_exact() {
    assert_eq!(satisfies_pessimistic("2.1", (2, 9, 9)), Some(true));
    assert_eq!(satisfies_pessimistic("2.1", (3, 0, 0)), Some(false));
    assert_eq!(satisfies_pessimistic("2.1.3", (2, 1, 99)), Some(true));
    assert_eq!(satisfies_pessimistic("2.1.3", (2, 2, 0)), Some(false));
    assert_eq!(satisfies_pessimistic("2", (2, 0, 0)), None);
    assert_eq!(satisfies_pessimistic("18446744073709551615.0", (18446744073709551615, 7, 0)), Some(true));
}

#[test]
fn comparator_and_requirement_results() {
    assert_eq!(satisfies_hex_comparator("= 1.0.0", (1, 0, 0)), Some(true));
    assert_eq!(satisfies_hex_comparator("1.0.0", (1, 0, 1)), Some(false));
    assert_eq!(satisfies_hex_comparator("", (1, 0, 1)), None);
    assert_eq!(hex_version_satisfies("== 1.0.0 OR == 2.0.0", (2, 0, 0)), Some(true));
    assert_eq!(hex_version_satisfies(">= 1.0.0 and bogus", (2, 0, 0)), None);
    assert_eq!(hex_version_satisfies("< 1.0.0 and bogus", (2, 0, 0)), Some(false));
}

#[test]
fn split_on_keyword_ignores_case() {
    assert_eq!(
        split_on_keyword("a OR b or c", " or "),
        vec!["a".to_string(), "b".to_string(), "c".to_string()]
    );
    assert_eq!(split_on_keyword("abc", " or "), vec!["abc".to_string()]);
}

use sampo_core::adapters::PackageAdapter;
use sampo_core::hex::{is_rebar_manifest, registry_url, resolve_hex_api_key};
use sampo_core::registry::RegistryReply;

fn empty_reply() -> RegistryReply {
    RegistryReply {
        url: String::new(),
        status: 200,
        status_text: "200 OK".to_string(),
        body: String::new(),
        retry_after: None,
        json: Err(String::new()),
    }
}

#[test]
fn hex_tests_version_exists_rejects_empty_name() {
    let err = PackageAdapter::Hex
        .version_exists("", "1.0.0", false, &empty_reply())
        .expect_err("expected empty package name to fail");
    assert!(err.to_string().contains("Package name cannot be empty"));
}

#[test]
fn registry_url_uses_repos_path_for_organization() {
    let url = registry_url(Some("acme"), "example", "1.0.0");
    assert_eq!(
        url,
        "https://hex.pm/api/repos/acme/packages/example/releases/1.0.0"
    );
}

#[test]
fn registry_url_uses_public_path_without_organization() {
    let url = registry_url(None, "example", "1.0.0");
    assert_eq!(url, "https://hex.pm/api/packages/example/releases/1.0.0");
}

#[test]
fn resolve_hex_api_key_returns_trimmed_value() {
    let key = resolve_hex_api_key(|name: &str| {
        if name == "HEX_API_KEY" {
            Some("  secret-key  ".to_string())
        } else {
            None
        }
    });
    assert_eq!(key.as_deref(), Some("secret-key"));
}

#[test]
fn resolve_hex_api_key_none_when_blank() {
    let key = resolve_hex_api_key(|_: &str| Some("   ".to_string()));
    assert_eq!(key, None);
}

#[test]
fn resolve_hex_api_key_none_when_unset() {
    let key = resolve_hex_api_key(|_: &str| None);
    assert_eq!(key, None);
}

#[test]
fn is_rebar_manifest_only_matches_app_src() {
    assert!(is_rebar_manifest("src/app.app.src"));
    assert!(!is_rebar_manifest("gleam.toml"));
    assert!(!is_rebar_manifest("mix.exs"));
    // The dynamic script variant is not the manifest we manage.
    assert!(!is_rebar_manifest("src/app.app.src.script"));
}
