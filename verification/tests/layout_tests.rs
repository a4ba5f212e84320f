use sampo_core::json_layout::{composer_json_fields, package_json_fields};
use sampo_core::toml_layout::{cargo_fields, pyproject_fields};
use sampo_core::xml_layout::xml_document;

#[test]
fn package_json_spans_count_characters_not_bytes() {
    let text = "{\"description\": \"é\", \"version\": \"1.0.0\", \"dependencies\": {\"a\": \"^2\"}}";
    let fields = package_json_fields(text).expect("parses");
    let version = fields.version.expect("has a version");
    let chars: Vec<char> = text.chars().collect();
    let quoted: String = chars[version.start..version.end].iter().collect();
    assert_eq!(quoted, "\"1.0.0\"");
    assert_eq!(version.text, Ok("1.0.0".to_string()));
    let deps = fields.dependencies.expect("has dependencies");
    assert_eq!(deps.len(), 1);
    assert_eq!(deps[0].0, "a");
    let dep: String = chars[deps[0].1.start..deps[0].1.end].iter().collect();
    assert_eq!(dep, "\"^2\"");
    assert!(fields.dev_dependencies.is_none());
}

#[test]
fn package_json_null_version_is_absent() {
    let fields = package_json_fields("{\"version\": null}").expect("parses");
    assert!(fields.version.is_none());
}

#[test]
fn package_json_that_is_no_object_is_refused() {
    assert!(package_json_fields("[1, 2]").is_err());
    assert!(package_json_fields("{").is_err());
}

#[test]
fn composer_json_requirements_are_located() {
    let text = "{\"require\": {\"php\": \">=8.1\", \"acme/lib\": \"^1.0\"}, \"require-dev\": null}";
    let fields = composer_json_fields(text).expect("parses");
    let require = fields.require.expect("has require");
    let names: Vec<&str> = require.iter().map(|(k, _)| k.as_str()).collect();
    assert_eq!(names, vec!["acme/lib", "php"]);
    assert_eq!(require[0].1.text, Ok("^1.0".to_string()));
    assert!(fields.require_dev.is_none());
    assert!(fields.version.is_none());
}

#[test]
fn xml_document_reads_names_text_and_children() {
    let text = "<?xml version=\"1.0\"?>\n<project><name>ö</name><version> 1.2.3 </version><modules><module>a</module><module>b</module></modules></project>";
    let doc = xml_document(text).expect("parses");
    let root = &doc.elements[0];
    assert_eq!(root.name, "project");
    assert_eq!(root.children.len(), 3);
    let version = &doc.elements[root.children[1]];
    assert_eq!(version.name, "version");
    let (start, raw) = version.content.clone().expect("has text");
    assert_eq!(raw, " 1.2.3 ");
    let chars: Vec<char> = text.chars().collect();
    let at: String = chars[start..start + raw.chars().count()].iter().collect();
    assert_eq!(at, " 1.2.3 ");
    let modules = &doc.elements[root.children[2]];
    assert!(modules.content.is_none());
    let names: Vec<String> = modules.children.iter().map(|&i| doc.elements[i].content.clone().unwrap().1).collect();
    assert_eq!(names, vec!["a".to_string(), "b".to_string()]);
}

#[test]
fn xml_document_without_root_element_is_none() {
    assert!(xml_document("").is_none());
}

#[test]
fn cargo_fields_locate_the_package_version() {
    let text = "[package]\nname = \"é\"\nversion = \"0.1.0\"\n\n[dependencies]\nfoo = \"1\"\n";
    let fields = cargo_fields(text).expect("parses");
    let slot = fields.package.expect("has [package]");
    let version = slot.version.expect("has a version");
    let chars: Vec<char> = text.chars().collect();
    let quoted: String = chars[version.start..version.end].iter().collect();
    assert_eq!(quoted, "\"0.1.0\"");
    assert_eq!(version.text, Some("0.1.0".to_string()));
}

#[test]
fn pyproject_fields_locate_version_and_dependencies() {
    let text = "[project]\nname = \"demo\"\nversion = \"2.0.0\"\ndependencies = [\"requests>=2\", \"rich\"]\n";
    let fields = pyproject_fields(text).expect("parses");
    let version = fields.version.expect("has a version");
    assert_eq!(version.text, Some("2.0.0".to_string()));
    let deps = fields.dependencies.expect("has dependencies");
    let texts: Vec<Option<String>> = deps.iter().map(|d| d.text.clone()).collect();
    assert_eq!(texts, vec![Some("requests>=2".to_string()), Some("rich".to_string())]);
    assert!(cargo_fields("[package\n").is_err());
}
