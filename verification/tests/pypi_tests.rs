use sampo_core::adapters::{defers_to_uv_index, PackageAdapter};
use sampo_core::pypi::normalize_package_name;
use sampo_core::registry::RegistryReply;

fn reply(status: u16, status_text: &str, body: &str) -> RegistryReply {
    RegistryReply {
        url: "https://pypi.org/pypi/pkg/json".to_string(),
        status,
        status_text: status_text.to_string(),
        body: body.to_string(),
        retry_after: None,
        json: Err("expected value at line 1 column 1".to_string()),
    }
}

#[test]
fn pypi_tests_version_exists_rejects_empty_name() {
    let err = PackageAdapter::PyPI
        .version_exists("", "1.0.0", false, &reply(200, "200 OK", ""))
        .expect_err("expected empty package name to fail");
    assert!(err.to_string().contains("Package name cannot be empty"));
}

#[test]
fn normalize_package_name_converts_underscores_and_dots() {
    assert_eq!(normalize_package_name("My_Package"), "my-package");
    assert_eq!(normalize_package_name("some.package"), "some-package");
    assert_eq!(normalize_package_name("Normal-Name"), "normal-name");
    assert_eq!(
        normalize_package_name("Package_With.Mixed_CASE"),
        "package-with-mixed-case"
    );
}

#[test]
fn version_exists_defers_to_uv_for_private_index() {
    let manifest = r#"
[project]
name = "private-pkg"
version = "1.0.0"

[[tool.uv.index]]
name = "private"
publish-url = "https://private.example.com/upload/"
"#;
    let private = defers_to_uv_index(manifest);
    assert!(private);
    let exists = PackageAdapter::PyPI
        .version_exists("private-pkg", "1.0.0", private, &reply(500, "500 Internal Server Error", ""))
        .expect("private index should defer without erroring");
    assert!(!exists);
}

#[test]
fn public_manifest_does_not_defer_to_uv() {
    assert!(!defers_to_uv_index("[project]\nname = \"pkg\"\nversion = \"1.0.0\"\n"));
    assert!(!defers_to_uv_index("[[tool.uv.index]]\nname = \"mirror\"\nurl = \"https://mirror.example.com/simple/\"\n"));
    assert!(!defers_to_uv_index("not = [valid"));
    let err = PackageAdapter::PyPI.version_exists("pkg", "1.0.0", false, &reply(500, "500 Internal Server Error", ""));
    assert!(err.is_err());
}
