use sampo_core::rebar3::publish_args;

#[test]
fn publish_args_selects_public_repo_and_confirms_by_default() {
    assert_eq!(
        publish_args(false, &[]),
        ["hex", "publish", "--yes", "--repo", "hexpm"]
    );
}

#[test]
fn publish_args_dry_run_still_confirms() {
    assert_eq!(
        publish_args(true, &[]),
        ["hex", "publish", "--dry-run", "--yes", "--repo", "hexpm"]
    );
}

#[test]
fn publish_args_yields_to_a_user_supplied_repo() {
    let long = vec!["--repo".to_string(), "hexpm:acme".to_string()];
    assert_eq!(
        publish_args(false, &long),
        ["hex", "publish", "--yes", "--repo", "hexpm:acme"]
    );
    let short = vec!["-r".to_string(), "hexpm:acme".to_string()];
    assert_eq!(
        publish_args(false, &short),
        ["hex", "publish", "--yes", "-r", "hexpm:acme"]
    );
}

#[test]
fn publish_args_does_not_duplicate_user_confirmation_or_dry_run() {
    assert_eq!(
        publish_args(false, &["--yes".to_string()]),
        ["hex", "publish", "--repo", "hexpm", "--yes"]
    );
    assert_eq!(
        publish_args(false, &["-y".to_string()]),
        ["hex", "publish", "--repo", "hexpm", "-y"]
    );
    assert_eq!(
        publish_args(true, &["--dry-run".to_string()]),
        ["hex", "publish", "--yes", "--repo", "hexpm", "--dry-run"]
    );
    assert_eq!(
        publish_args(true, &["--yes".to_string()]),
        ["hex", "publish", "--dry-run", "--repo", "hexpm", "--yes"]
    );
}

#[test]
fn publish_errors_when_manifest_not_under_src() {
    let err = sampo_core::rebar3::application_root("app.app.src").unwrap_err();
    assert!(err.to_string().contains("src"));
}

#[test]
fn application_root_is_above_src() {
    assert_eq!(sampo_core::rebar3::application_root("apps/web/src/web.app.src").unwrap(), "apps/web");
    assert_eq!(sampo_core::rebar3::application_root("src/web.app.src").unwrap(), "");
}
