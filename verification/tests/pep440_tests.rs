use sampo_core::pip::{
    check_pep440_constraint, extract_constraint_from_spec, is_pep440_pinned_version,
    matches_pep440_wildcard, parse_pep440_version, pep440_constraint_contains_prerelease,
    pep440_version_satisfies, satisfies_single_pep440_specifier, strip_post_release_suffix,
};
use sampo_core::types::ConstraintCheckResult;

#[test]
fn pep440_versions_read_releases_only() {
    assert_eq!(parse_pep440_version("1.2.3"), Some((1, 2, 3)));
    assert_eq!(parse_pep440_version(" v2.0 "), Some((2, 0, 0)));
    assert_eq!(parse_pep440_version("1.0.post2"), Some((1, 0, 0)));
    assert_eq!(parse_pep440_version("1.0a1"), None);
    assert_eq!(parse_pep440_version("1.0rc1"), None);
    assert_eq!(parse_pep440_version("1.0.dev3"), None);
    assert_eq!(parse_pep440_version("1"), None);
    assert_eq!(parse_pep440_version(""), None);
    assert_eq!(strip_post_release_suffix("1.0.POST5"), "1.0");
    assert_eq!(strip_post_release_suffix("1.0.postx"), "1.0.postx");
}

#[test]
fn pep440_specifiers() {
    assert_eq!(satisfies_single_pep440_specifier("~=1.4.2", (1, 4, 9)), Some(true));
    assert_eq!(satisfies_single_pep440_specifier("~=1.4.2", (1, 5, 0)), Some(false));
    assert_eq!(satisfies_single_pep440_specifier("~=1.4", (1, 9, 0)), Some(true));
    assert_eq!(satisfies_single_pep440_specifier("~=1.4", (2, 0, 0)), Some(false));
    assert_eq!(satisfies_single_pep440_specifier("==1.*", (1, 7, 0)), Some(true));
    assert_eq!(satisfies_single_pep440_specifier("!=1.2.*", (1, 2, 5)), Some(false));
    assert_eq!(satisfies_single_pep440_specifier(">=1.0", (1, 0, 0)), Some(true));
    assert_eq!(satisfies_single_pep440_specifier("<1.0", (1, 0, 0)), Some(false));
    assert_eq!(satisfies_single_pep440_specifier("1.0", (1, 0, 0)), Some(true));
    assert_eq!(satisfies_single_pep440_specifier(">=abc", (1, 0, 0)), None);
    assert!(matches_pep440_wildcard("2.1.*", (2, 1, 7)));
    assert!(!matches_pep440_wildcard("2.1.3.*", (2, 1, 3)));
    assert_eq!(pep440_version_satisfies(">=1.0, <2.0", (1, 5, 0)), Some(true));
    assert_eq!(pep440_version_satisfies(">=1.0, <2.0", (2, 0, 0)), Some(false));
}

#[test]
fn pep440_prerelease_and_pins() {
    assert!(pep440_constraint_contains_prerelease(">=1.0rc1"));
    assert!(pep440_constraint_contains_prerelease(">=1.0.dev1"));
    assert!(pep440_constraint_contains_prerelease("==2.0b3"));
    assert!(!pep440_constraint_contains_prerelease(">=1.0, <2.0"));
    assert!(is_pep440_pinned_version("1.2.3"));
    assert!(!is_pep440_pinned_version("==1.2.3"));
    assert!(!is_pep440_pinned_version("1.*"));
}

#[test]
fn pep440_constraint_checks() {
    assert_eq!(
        check_pep440_constraint(">=1.0,<2.0", "1.5.0").unwrap(),
        ConstraintCheckResult::Satisfied
    );
    assert_eq!(
        check_pep440_constraint(">=1.0,<2.0", "2.0.0").unwrap(),
        ConstraintCheckResult::NotSatisfied {
            constraint: ">=1.0,<2.0".to_string(),
            new_version: "2.0.0".to_string()
        }
    );
    assert_eq!(
        check_pep440_constraint("  ", "1.0.0").unwrap(),
        ConstraintCheckResult::Skipped { reason: "empty constraint".to_string() }
    );
    assert_eq!(check_pep440_constraint("*", "1.0.0").unwrap(), ConstraintCheckResult::Satisfied);
    assert_eq!(
        check_pep440_constraint(">=1.0", "2.0.0-rc.1").unwrap(),
        ConstraintCheckResult::Skipped { reason: "pre-release version".to_string() }
    );
    assert_eq!(
        check_pep440_constraint(">=1.0rc1", "2.0.0").unwrap(),
        ConstraintCheckResult::Skipped { reason: "pre-release constraint".to_string() }
    );
    assert_eq!(
        check_pep440_constraint("1.0.0", "2.0.0").unwrap(),
        ConstraintCheckResult::Skipped { reason: "pinned version".to_string() }
    );
    assert_eq!(
        check_pep440_constraint(">=1.0", "banana").unwrap(),
        ConstraintCheckResult::Skipped { reason: "unparseable version 'banana'".to_string() }
    );
    assert_eq!(
        check_pep440_constraint(">=x", "1.0.0").unwrap(),
        ConstraintCheckResult::Skipped { reason: "unparseable constraint '>=x'".to_string() }
    );
}

#[test]
fn constraint_part_of_specifiers() {
    assert_eq!(extract_constraint_from_spec("requests[security]>=2.0; python_version > '3'"), ">=2.0");
    assert_eq!(extract_constraint_from_spec("flask ==2.0"), "==2.0");
    assert_eq!(extract_constraint_from_spec("pkg @ https://x/y.zip"), "");
    assert_eq!(extract_constraint_from_spec("bare"), "");
}
