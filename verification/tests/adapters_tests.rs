use sampo_core::adapters::PackageAdapter;
use sampo_core::registry::RegistryReply;
use sampo_core::tree::Value;
use sampo_core::types::PackageKind;

fn reply(status: u16, status_text: &str, body: &str, json: Result<Value, String>) -> RegistryReply {
    RegistryReply {
        url: "https://registry.example/pkg".to_string(),
        status,
        status_text: status_text.to_string(),
        body: body.to_string(),
        retry_after: None,
        json,
    }
}

fn table(entries: Vec<(&str, Value)>) -> Value {
    Value::Table(entries.into_iter().map(|(k, v)| (k.to_string(), v)).collect())
}

#[test]
fn adapters_round_trip_their_kinds() {
    let all = PackageAdapter::all();
    assert_eq!(all, vec![PackageAdapter::Cargo, PackageAdapter::Npm, PackageAdapter::Hex, PackageAdapter::PyPI]);
    for adapter in all {
        assert_eq!(PackageAdapter::from_kind(adapter.kind()), adapter);
    }
    assert_eq!(PackageAdapter::from_kind(PackageKind::PyPI), PackageAdapter::PyPI);
    assert_eq!(PackageAdapter::from_kind(PackageKind::Maven), PackageAdapter::Maven);
    assert_eq!(PackageAdapter::from_kind(PackageKind::Packagist), PackageAdapter::Packagist);
}

#[test]
fn manifests_and_discovery_markers() {
    assert_eq!(PackageAdapter::Cargo.manifest_path("/repo/crates/a"), "/repo/crates/a/Cargo.toml");
    assert_eq!(PackageAdapter::Npm.manifest_path("pkg/"), "pkg/package.json");
    assert_eq!(PackageAdapter::Maven.manifest_path(""), "pom.xml");
    let entries = vec!["README.md".to_string(), "pnpm-workspace.yaml".to_string()];
    assert!(PackageAdapter::Npm.can_discover(&entries));
    assert!(!PackageAdapter::Cargo.can_discover(&entries));
    assert!(PackageAdapter::Hex.can_discover(&["rebar.config".to_string()]));
}

#[test]
fn registry_urls() {
    assert_eq!(
        PackageAdapter::PyPI.registry_url(" My_Package ", "1.0.0").unwrap(),
        Some("https://pypi.org/pypi/my-package/json".to_string())
    );
    assert_eq!(
        PackageAdapter::Maven.registry_url("com.example/lib", "2.0").unwrap(),
        Some("https://repo1.maven.org/maven2/com/example/lib/2.0/lib-2.0.pom".to_string())
    );
    assert!(PackageAdapter::Maven.registry_url("lib", "2.0").is_err());
    assert_eq!(PackageAdapter::Npm.registry_url("x", "1").unwrap(), None);
}

#[test]
fn registry_replies() {
    let ok = reply(200, "200 OK", "", Err("unused".to_string()));
    assert_eq!(PackageAdapter::Cargo.version_exists("a", "1.0.0", false, &ok).unwrap(), true);
    let missing = reply(404, "404 Not Found", "", Err("unused".to_string()));
    assert_eq!(PackageAdapter::Hex.version_exists("a", "1.0.0", false, &missing).unwrap(), false);
    let broken = reply(500, "500 Internal Server Error", "  oops\n  it   broke ", Err(String::new()));
    let err = PackageAdapter::Hex.version_exists("a", "1.0.0", false, &broken).unwrap_err();
    assert_eq!(
        err.to_string(),
        "Publish error: Hex registry returned 500 Internal Server Error for 'a@1.0.0' body=\"oops it broke\""
    );
    let mut limited = reply(429, "429 Too Many Requests", "", Err(String::new()));
    limited.retry_after = Some("30".to_string());
    let err = PackageAdapter::Maven.version_exists("g/a", "1.0", false, &limited).unwrap_err();
    assert_eq!(
        err.to_string(),
        "Publish error: Maven registry returned 429 Too Many Requests for 'g/a@1.0'. Retry-After: 30"
    );
    let releases = table(vec![(
        "releases",
        table(vec![("1.0.0", Value::List(vec![]))]),
    )]);
    let pypi_ok = reply(200, "200 OK", "{}", Ok(releases));
    assert!(PackageAdapter::PyPI.version_exists("pkg", "1.0.0", false, &pypi_ok).unwrap());
    assert!(!PackageAdapter::PyPI.version_exists("pkg", "2.0.0", false, &pypi_ok).unwrap());
    let packagist = table(vec![(
        "package",
        table(vec![("versions", table(vec![("v1.2.0", Value::Bool(true))]))]),
    )]);
    let pk = reply(200, "200 OK", "{}", Ok(packagist));
    assert!(PackageAdapter::Packagist.version_exists("v/p", "1.2.0", false, &pk).unwrap());
    let no_versions = reply(200, "200 OK", "{}", Ok(table(vec![])));
    let err = PackageAdapter::Npm.version_exists("left-pad", "1.0.0", false, &no_versions).unwrap_err();
    assert_eq!(
        err.to_string(),
        "Publish error: registry response for left-pad is missing a 'versions' object"
    );
}
