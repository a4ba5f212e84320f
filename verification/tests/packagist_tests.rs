use sampo_core::errors::{SampoError, WorkspaceError};
use sampo_core::packagist;
use sampo_core::tree::Value;
use sampo_core::packagist::{check_dependency_constraint, composer_version_satisfies, compute_dependency_constraint, constraint_contains_prerelease, expand_caret, expand_tilde_composer, is_pinned_version, matches_wildcard, normalize_comparator_whitespace, parse_composer_version, satisfies_and_group, satisfies_single_comparator};
use sampo_core::types::ConstraintCheckResult;

#[test]
fn compute_dependency_constraint_caret() {
    assert_eq!(
        compute_dependency_constraint("^1.0.0", "2.0.0"),
        Some("^2.0.0".to_string())
    );
    assert_eq!(compute_dependency_constraint("^2.0.0", "2.0.0"), None);
}

#[test]
fn compute_dependency_constraint_tilde() {
    assert_eq!(
        compute_dependency_constraint("~1.0.0", "2.0.0"),
        Some("~2.0.0".to_string())
    );
    assert_eq!(compute_dependency_constraint("~2.0.0", "2.0.0"), None);
}

#[test]
fn compute_dependency_constraint_exact() {
    assert_eq!(
        compute_dependency_constraint("1.0.0", "2.0.0"),
        Some("^2.0.0".to_string())
    );
    assert_eq!(compute_dependency_constraint("2.0.0", "2.0.0"), None);
}

#[test]
fn compute_dependency_constraint_skips_complex() {
    // Complex constraints with logical operators should not be modified
    assert_eq!(compute_dependency_constraint(">=1.0 <2.0", "2.0.0"), None);
    assert_eq!(compute_dependency_constraint("^1.0 || ^2.0", "3.0.0"), None);
}

#[test]
fn compute_dependency_constraint_skips_comparison_operators() {
    assert_eq!(compute_dependency_constraint(">=1.0.0", "2.0.0"), None);
    assert_eq!(compute_dependency_constraint("<=2.0.0", "1.0.0"), None);
    assert_eq!(compute_dependency_constraint(">1.0.0", "2.0.0"), None);
    assert_eq!(compute_dependency_constraint("<2.0.0", "1.0.0"), None);
}

#[test]
fn compute_dependency_constraint_skips_wildcard() {
    assert_eq!(compute_dependency_constraint("1.0.*", "1.1.0"), None);
    assert_eq!(compute_dependency_constraint("2.*", "2.1.0"), None);
}

#[test]
fn compute_dependency_constraint_empty_uses_caret() {
    assert_eq!(
        compute_dependency_constraint("", "1.0.0"),
        Some("^1.0.0".to_string())
    );
}

fn assert_constraint(constraint: &str, new_version: &str) -> ConstraintCheckResult {
    check_dependency_constraint("test/dep", Some(constraint), new_version)
}

fn assert_satisfied(constraint: &str, new_version: &str) {
    assert_eq!(
        assert_constraint(constraint, new_version),
        ConstraintCheckResult::Satisfied,
        "expected '{}' to be satisfied by '{}'",
        constraint,
        new_version
    );
}

fn assert_not_satisfied(constraint: &str, new_version: &str) {
    let result = assert_constraint(constraint, new_version);
    assert!(
        matches!(result, ConstraintCheckResult::NotSatisfied { .. }),
        "expected '{}' to be not satisfied by '{}', got {:?}",
        constraint,
        new_version,
        result
    );
}

fn assert_skipped(constraint: &str, new_version: &str) {
    let result = assert_constraint(constraint, new_version);
    assert!(
        matches!(result, ConstraintCheckResult::Skipped { .. }),
        "expected '{}' to be skipped for '{}', got {:?}",
        constraint,
        new_version,
        result
    );
}

#[test]
fn caret_satisfied() {
    assert_satisfied("^1.2.3", "1.5.0");
}

#[test]
fn caret_exact_match() {
    assert_satisfied("^1.2.3", "1.2.3");
}

#[test]
fn caret_zero_minor_satisfied() {
    assert_satisfied("^0.2.3", "0.2.5");
}

#[test]
fn caret_not_satisfied_major_bump() {
    assert_not_satisfied("^1.2.3", "2.0.0");
}

#[test]
fn caret_zero_minor_not_satisfied() {
    assert_not_satisfied("^0.2.3", "0.3.0");
}

#[test]
fn caret_zero_zero_patch_not_satisfied() {
    assert_not_satisfied("^0.0.3", "0.0.4");
}

#[test]
fn tilde_two_parts_satisfied() {
    assert_satisfied("~1.2", "1.5.0");
}

#[test]
fn tilde_two_parts_not_satisfied() {
    assert_not_satisfied("~1.2", "2.0.0");
}

#[test]
fn tilde_three_parts_satisfied() {
    assert_satisfied("~1.2.3", "1.2.9");
}

#[test]
fn tilde_three_parts_not_satisfied() {
    assert_not_satisfied("~1.2.3", "1.3.0");
}

#[test]
fn packagist_tests_gte_satisfied() {
    assert_satisfied(">=1.0.0", "2.0.0");
}

#[test]
fn packagist_tests_gte_not_satisfied() {
    assert_not_satisfied(">=2.0.0", "1.9.9");
}

#[test]
fn packagist_tests_gt_satisfied() {
    assert_satisfied(">1.0.0", "1.0.1");
}

#[test]
fn packagist_tests_gt_not_satisfied_equal() {
    assert_not_satisfied(">1.0.0", "1.0.0");
}

#[test]
fn packagist_tests_lte_satisfied() {
    assert_satisfied("<=2.0.0", "2.0.0");
}

#[test]
fn packagist_tests_lte_not_satisfied() {
    assert_not_satisfied("<=2.0.0", "2.0.1");
}

#[test]
fn packagist_tests_lt_satisfied() {
    assert_satisfied("<2.0.0", "1.9.9");
}

#[test]
fn packagist_tests_lt_not_satisfied() {
    assert_not_satisfied("<2.0.0", "2.0.0");
}

#[test]
fn ne_satisfied() {
    assert_satisfied("!=1.0.0", "2.0.0");
}

#[test]
fn ne_not_satisfied() {
    assert_not_satisfied("!=1.0.0", "1.0.0");
}

#[test]
fn and_comma_satisfied() {
    assert_satisfied(">=1.0.0,<2.0.0", "1.5.0");
}

#[test]
fn and_comma_not_satisfied() {
    assert_not_satisfied(">=1.0.0,<2.0.0", "2.0.0");
}

#[test]
fn and_space_satisfied() {
    assert_satisfied(">=1.0.0 <2.0.0", "1.5.0");
}

#[test]
fn and_space_not_satisfied() {
    assert_not_satisfied(">=1.0.0 <2.0.0", "2.0.0");
}

#[test]
fn or_satisfied() {
    assert_satisfied("^1.0.0 || ^2.0.0", "2.1.0");
}

#[test]
fn or_not_satisfied() {
    assert_not_satisfied("^1.0.0 || ^2.0.0", "3.0.0");
}

#[test]
fn wildcard_star_satisfied() {
    assert_satisfied("*", "5.0.0");
}

#[test]
fn wildcard_patch_satisfied() {
    assert_satisfied("1.0.*", "1.0.5");
}

#[test]
fn wildcard_patch_not_satisfied() {
    assert_not_satisfied("1.0.*", "1.1.0");
}

#[test]
fn wildcard_minor_satisfied() {
    assert_satisfied("1.*", "1.5.0");
}

#[test]
fn wildcard_minor_not_satisfied() {
    assert_not_satisfied("1.*", "2.0.0");
}

#[test]
fn whitespace_gte() {
    assert_satisfied(">= 1.0.0", "1.5.0");
}

#[test]
fn whitespace_caret() {
    assert_satisfied("^ 1.2.3", "1.5.0");
}

#[test]
fn whitespace_tilde() {
    assert_satisfied("~ 1.2.3", "1.2.9");
}

#[test]
fn skip_pinned_version() {
    assert_skipped("1.2.3", "2.0.0");
}

#[test]
fn skip_prerelease_version() {
    assert_skipped("^1.0.0", "2.0.0-beta.1");
}

#[test]
fn skip_prerelease_constraint() {
    assert_skipped("^1.0.0-beta", "2.0.0");
}

#[test]
fn skip_stability_flag() {
    assert_skipped("^1.0@dev", "2.0.0");
}

#[test]
fn skip_empty_constraint() {
    assert_skipped("", "1.0.0");
}

#[test]
fn skip_dep_not_found() {
    let result = check_dependency_constraint("missing/dep", None, "1.0.0");
    assert!(matches!(result, ConstraintCheckResult::Skipped { .. }));
}

#[test]
fn composer_skip_reasons_are_exact() {
    assert_eq!(
        assert_constraint("^1.0@dev", "2.0.0"),
        ConstraintCheckResult::Skipped { reason: "stability flag in constraint".to_string() }
    );
    assert_eq!(
        assert_constraint("^1.0.0-beta", "2.0.0"),
        ConstraintCheckResult::Skipped { reason: "pre-release constraint".to_string() }
    );
    assert_eq!(
        assert_constraint("^1.0.0", "oops"),
        ConstraintCheckResult::Skipped { reason: "unparseable version 'oops'".to_string() }
    );
    assert_eq!(
        assert_constraint(" ^1.x ", "1.0.0"),
        ConstraintCheckResult::Skipped { reason: "unparseable constraint '^1.x'".to_string() }
    );
    assert_eq!(
        assert_constraint(" ^1.0.0 ", "2.0.0"),
        ConstraintCheckResult::NotSatisfied {
            constraint: "^1.0.0".to_string(),
            new_version: "2.0.0".to_string()
        }
    );
    assert_eq!(assert_constraint(" * ", "2.0.0"), ConstraintCheckResult::Satisfied);
}

#[test]
fn composer_helpers_give_exact_results() {
    assert_eq!(parse_composer_version("v1.2.3"), Some((1, 2, 3)));
    assert_eq!(parse_composer_version(" 1.2 "), Some((1, 2, 0)));
    assert_eq!(parse_composer_version("v"), None);
    assert!(constraint_contains_prerelease("1.0.0-RC1"));
    assert!(!constraint_contains_prerelease("1.0.0 - 2.0.0"));
    assert!(is_pinned_version(" 1.2.3 "));
    assert!(!is_pinned_version("!=1.2.3"));
    assert_eq!(normalize_comparator_whitespace(">=  1.0  <2.0"), ">=1.0  <2.0");
    assert_eq!(normalize_comparator_whitespace("^ 1.2 || ~ 2"), "^1.2 || ~2");
    assert_eq!(expand_caret((0, 0, 3)), ((0, 0, 3), (0, 0, 4)));
    assert_eq!(expand_caret((0, 2, 3)), ((0, 2, 3), (0, 3, 0)));
    assert_eq!(expand_caret((1, 2, 3)), ((1, 2, 3), (2, 0, 0)));
    assert_eq!(expand_tilde_composer((1, 2, 0), 2), ((1, 2, 0), (2, 0, 0)));
    assert_eq!(expand_tilde_composer((1, 2, 3), 3), ((1, 2, 3), (1, 3, 0)));
    assert!(matches_wildcard("1.2.*", (1, 2, 9)));
    assert!(!matches_wildcard("1.2.*", (1, 3, 0)));
    assert!(!matches_wildcard("1.2.3.*", (1, 2, 3)));
    assert_eq!(satisfies_single_comparator("<=1.0", (1, 0, 0)), Some(true));
    assert_eq!(satisfies_single_comparator("~1.x", (1, 0, 0)), None);
    assert_eq!(satisfies_and_group(">=1.0, <2.0 !=1.5.0", (1, 5, 0)), Some(false));
    assert_eq!(composer_version_satisfies("<1.0 || ", (5, 0, 0)), Some(true));
    assert_eq!(composer_version_satisfies("<1.0 || bogus", (5, 0, 0)), None);
}

fn composer(entries: Vec<(&str, Value)>) -> Value {
    Value::Table(entries.into_iter().map(|(k, v)| (k.to_string(), v)).collect())
}

fn s(text: &str) -> Value {
    Value::Str(text.to_string())
}

#[test]
fn composer_publishability_follows_name_version_and_abandonment() {
    let ok = composer(vec![("name", s("acme/lib")), ("version", s("1.0.0"))]);
    assert_eq!(packagist::is_publishable("/p/composer.json", &ok).unwrap(), true);
    let no_version = composer(vec![("name", s("acme/lib"))]);
    assert_eq!(packagist::is_publishable("/p/composer.json", &no_version).unwrap(), false);
    let abandoned = composer(vec![
        ("name", s("acme/lib")),
        ("version", s("1.0.0")),
        ("abandoned", s("acme/other")),
    ]);
    assert_eq!(packagist::is_publishable("/p/composer.json", &abandoned).unwrap(), false);
    let kept = composer(vec![
        ("name", s("acme/lib")),
        ("version", s("1.0.0")),
        ("abandoned", Value::Bool(false)),
    ]);
    assert_eq!(packagist::is_publishable("/p/composer.json", &kept).unwrap(), true);
    match packagist::is_publishable("/p/composer.json", &composer(vec![("name", s("lib"))])) {
        Err(SampoError::Publish(m)) => assert_eq!(
            m,
            "Manifest /p/composer.json has invalid package name 'lib': must be in 'vendor/package' format"
        ),
        other => panic!("unexpected result: {other:?}"),
    }
    match packagist::is_publishable("/p/composer.json", &composer(vec![])) {
        Err(SampoError::Publish(m)) => {
            assert_eq!(m, "Manifest /p/composer.json is missing a 'name' field")
        }
        other => panic!("unexpected result: {other:?}"),
    }
}

#[test]
fn composer_validate_gets_the_extra_arguments() {
    let ok = composer(vec![("name", s("acme/lib"))]);
    assert_eq!(
        packagist::publish_args("/p/composer.json", &ok, &["--strict".to_string()]).unwrap(),
        vec!["validate", "--strict"]
    );
    assert!(packagist::publish_args("/p/composer.json", &composer(vec![]), &[]).is_err());
}

#[test]
fn composer_dependency_constraints_prefer_require() {
    let manifest = composer(vec![
        ("require", composer(vec![("acme/a", s("^1.0"))])),
        (
            "require-dev",
            composer(vec![("acme/a", s("^2.0")), ("acme/b", s("~3.1"))]),
        ),
    ]);
    assert_eq!(
        packagist::find_dependency_constraint(&manifest, "acme/a").as_deref(),
        Some("^1.0")
    );
    assert_eq!(
        packagist::find_dependency_constraint(&manifest, "acme/b").as_deref(),
        Some("~3.1")
    );
    assert_eq!(packagist::find_dependency_constraint(&manifest, "acme/c"), None);
}

#[test]
fn composer_root_package_is_discovered() {
    let manifest = composer(vec![("name", s("acme/lib")), ("version", s("2.1.0"))]);
    let p = packagist::discover_root_package("/repo", "/repo/composer.json", &manifest).unwrap();
    assert_eq!(p.name, "acme/lib");
    assert_eq!(p.identifier, "packagist/acme/lib");
    assert_eq!(p.version, "2.1.0");
    assert_eq!(p.path, "/repo");
    let unversioned = composer(vec![("name", s("acme/lib"))]);
    assert_eq!(
        packagist::discover_root_package("/repo", "/repo/composer.json", &unversioned)
            .unwrap()
            .version,
        ""
    );
    match packagist::discover_root_package("/repo", "/repo/composer.json", &composer(vec![("name", s("lib"))])) {
        Err(WorkspaceError::InvalidManifest(m)) => assert_eq!(
            m,
            "package name 'lib' in /repo/composer.json must be in 'vendor/package' format"
        ),
        other => panic!("unexpected result: {other:?}"),
    }
}
