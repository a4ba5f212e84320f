use sampo_core::publish::PublishExtraArgs;
use sampo_core::types::PackageKind;

#[test]
fn args_for_kind_returns_universal_only_when_no_ecosystem_args() {
    let extra = PublishExtraArgs {
        universal: vec!["--tag".into(), "beta".into()],
        ..Default::default()
    };
    assert_eq!(
        extra.args_for_kind(PackageKind::Cargo),
        vec!["--tag", "beta"]
    );
    assert_eq!(extra.args_for_kind(PackageKind::Npm), vec!["--tag", "beta"]);
    assert_eq!(extra.args_for_kind(PackageKind::Hex), vec!["--tag", "beta"]);
    assert_eq!(
        extra.args_for_kind(PackageKind::PyPI),
        vec!["--tag", "beta"]
    );
    assert_eq!(
        extra.args_for_kind(PackageKind::Packagist),
        vec!["--tag", "beta"]
    );
}

#[test]
fn args_for_kind_merges_universal_and_ecosystem_args() {
    let extra = PublishExtraArgs {
        universal: vec!["--tag".into(), "beta".into()],
        cargo: vec!["--allow-dirty".into()],
        npm: vec!["--access".into(), "restricted".into()],
        ..Default::default()
    };

    assert_eq!(
        extra.args_for_kind(PackageKind::Cargo),
        vec!["--tag", "beta", "--allow-dirty"]
    );
    assert_eq!(
        extra.args_for_kind(PackageKind::Npm),
        vec!["--tag", "beta", "--access", "restricted"]
    );
}

#[test]
fn args_for_kind_returns_only_ecosystem_args_when_no_universal() {
    let extra = PublishExtraArgs {
        cargo: vec!["--allow-dirty".into()],
        hex: vec!["--replace".into()],
        ..Default::default()
    };

    assert_eq!(
        extra.args_for_kind(PackageKind::Cargo),
        vec!["--allow-dirty"]
    );
    assert_eq!(extra.args_for_kind(PackageKind::Npm), Vec::<String>::new());
    assert_eq!(extra.args_for_kind(PackageKind::Hex), vec!["--replace"]);
}

#[test]
fn args_for_kind_returns_empty_when_no_args() {
    let extra = PublishExtraArgs::default();
    assert!(extra.args_for_kind(PackageKind::Cargo).is_empty());
    assert!(extra.args_for_kind(PackageKind::Npm).is_empty());
}
