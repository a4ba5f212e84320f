use sampo_core::errors::SampoError;
use sampo_core::pom::{
    discover_members, find_dependency_version, is_publishable, locate_pom_spans, parent_pom_location,
    parse_pom_node, update_manifest_versions, XmlDocument, XmlElement,
};
use std::collections::BTreeMap;

/// The elements of a small, well-formed XML document (ASCII, so byte and
/// character positions agree): the prolog and comments are skipped, and an
/// element's content is recorded when it is text alone.
fn parse_doc(src: &str) -> XmlDocument {
    let mut elements: Vec<XmlElement> = Vec::new();
    let mut open: Vec<(usize, usize, bool)> = Vec::new();
    let mut i = 0;
    while i < src.len() {
        let rest = &src[i..];
        if rest.starts_with("<?") {
            i += rest.find("?>").unwrap() + 2;
        } else if rest.starts_with("<!--") {
            if let Some(top) = open.last_mut() {
                top.2 = true;
            }
            i += rest.find("-->").unwrap() + 3;
        } else if rest.starts_with("</") {
            let (idx, start, mixed) = open.pop().unwrap();
            if !mixed && i > start {
                elements[idx].content = Some((start, src[start..i].to_string()));
            }
            i += rest.find('>').unwrap() + 1;
        } else if rest.starts_with('<') {
            let close = rest.find('>').unwrap();
            let tag = &rest[1..close];
            let self_closing = tag.ends_with('/');
            let name: String = tag
                .trim_end_matches('/')
                .split(|c: char| c.is_whitespace())
                .next()
                .unwrap()
                .to_string();
            let idx = elements.len();
            elements.push(XmlElement { name, content: None, children: vec![] });
            if let Some(top) = open.last_mut() {
                top.2 = true;
                elements[top.0].children.push(idx);
            }
            if !self_closing {
                open.push((idx, i + close + 1, false));
            }
            i += close + 1;
        } else {
            i += rest.chars().next().unwrap().len_utf8();
        }
    }
    XmlDocument { elements }
}

fn update(
    input: &str,
    new_pkg_version: Option<&str>,
    versions: &BTreeMap<String, String>,
) -> Result<(String, Vec<(String, String)>), SampoError> {
    let entries: Vec<(String, String)> = versions.iter().map(|(k, v)| (k.clone(), v.clone())).collect();
    update_manifest_versions("pom.xml", input, new_pkg_version, &entries)
}

fn simple_pom(group_id: &str, artifact_id: &str, version: &str) -> String {
    format!(
        "<?xml version=\"1.0\" encoding=\"UTF-8\"?>\n\
         <project xmlns=\"http://maven.apache.org/POM/4.0.0\">\n\
         \x20 <modelVersion>4.0.0</modelVersion>\n\
         \x20 <groupId>{group_id}</groupId>\n\
         \x20 <artifactId>{artifact_id}</artifactId>\n\
         \x20 <version>{version}</version>\n\
         </project>\n"
    )
}

#[test]
fn update_splices_own_version_and_preserves_bytes() {
    let input = "<?xml version=\"1.0\" encoding=\"UTF-8\"?>\n\
         <!-- release managed by sampo -->\n\
         <project xmlns=\"http://maven.apache.org/POM/4.0.0\">\n\
         \x20 <groupId>com.example</groupId>\n\
         \x20 <artifactId>lib</artifactId>\n\
         \x20 <version>1.2.3</version>\n\
         \x20 <name>lib</name>\n\
         </project>\n";

    let (output, applied) = update(input, Some("1.3.0"), &BTreeMap::new()).unwrap();

    assert_eq!(
        output,
        input.replace("<version>1.2.3</version>", "<version>1.3.0</version>")
    );
    assert!(applied.is_empty());
}

#[test]
fn update_rewrites_parent_and_dependency_references() {
    let input = "<project>\n\
         \x20 <parent>\n\
         \x20   <groupId>com.example</groupId>\n\
         \x20   <artifactId>parent</artifactId>\n\
         \x20   <version>1.2.3</version>\n\
         \x20 </parent>\n\
         \x20 <artifactId>cli</artifactId>\n\
         \x20 <version>0.9.0</version>\n\
         \x20 <dependencies>\n\
         \x20   <dependency>\n\
         \x20     <groupId>${project.groupId}</groupId>\n\
         \x20     <artifactId>core</artifactId>\n\
         \x20     <version>1.2.3</version>\n\
         \x20   </dependency>\n\
         \x20 </dependencies>\n\
         </project>\n";

    let mut versions = BTreeMap::new();
    versions.insert("com.example/parent".to_string(), "2.0.0".to_string());
    versions.insert("com.example/core".to_string(), "2.0.0".to_string());

    let (output, applied) = update(input, Some("1.0.0"), &versions).unwrap();

    let expected = input.replace("1.2.3", "2.0.0").replace("0.9.0", "1.0.0");
    assert_eq!(output, expected);
    assert_eq!(
        applied,
        vec![
            ("com.example/core".to_string(), "2.0.0".to_string()),
            ("com.example/parent".to_string(), "2.0.0".to_string()),
        ]
    );
}

#[test]
fn update_leaves_project_version_references_alone() {
    let input = "<project>\n\
         \x20 <groupId>com.example</groupId>\n\
         \x20 <artifactId>cli</artifactId>\n\
         \x20 <version>1.0.0</version>\n\
         \x20 <dependencies>\n\
         \x20   <dependency>\n\
         \x20     <groupId>com.example</groupId>\n\
         \x20     <artifactId>core</artifactId>\n\
         \x20     <version>${project.version}</version>\n\
         \x20   </dependency>\n\
         \x20 </dependencies>\n\
         </project>\n";

    let mut versions = BTreeMap::new();
    versions.insert("com.example/core".to_string(), "2.0.0".to_string());

    let (output, applied) = update(input, None, &versions).unwrap();

    assert_eq!(output, input);
    assert!(applied.is_empty());
}

#[test]
fn update_accepts_inherited_version_when_parent_matches() {
    let input = "<project>\n\
         \x20 <parent>\n\
         \x20   <groupId>com.example</groupId>\n\
         \x20   <artifactId>parent</artifactId>\n\
         \x20   <version>1.2.3</version>\n\
         \x20 </parent>\n\
         \x20 <artifactId>core</artifactId>\n\
         </project>\n";

    let mut versions = BTreeMap::new();
    versions.insert("com.example/parent".to_string(), "2.0.0".to_string());

    let (output, applied) = update(input, Some("2.0.0"), &versions).unwrap();

    assert!(output.contains("<version>2.0.0</version>"));
    assert_eq!(
        applied,
        vec![("com.example/parent".to_string(), "2.0.0".to_string())]
    );
}

#[test]
fn update_rejects_inherited_version_without_parent_release() {
    let input = "<project>\n\
         \x20 <parent>\n\
         \x20   <groupId>com.example</groupId>\n\
         \x20   <artifactId>parent</artifactId>\n\
         \x20   <version>1.2.3</version>\n\
         \x20 </parent>\n\
         \x20 <artifactId>core</artifactId>\n\
         </project>\n";

    let err = update(input, Some("2.0.0"), &BTreeMap::new()).unwrap_err();
    assert!(err.to_string().contains("inherits its version"));
}

#[test]
fn update_without_changes_returns_input() {
    let input = simple_pom("com.example", "lib", "1.0.0");
    let (output, applied) = update(&input, Some("1.0.0"), &BTreeMap::new()).unwrap();
    assert_eq!(output, input);
    assert!(applied.is_empty());
}

#[test]
fn update_rewrites_dependency_management_pins() {
    let input = "<project>\n\
         \x20 <groupId>com.example</groupId>\n\
         \x20 <artifactId>parent</artifactId>\n\
         \x20 <version>1.0.0</version>\n\
         \x20 <dependencyManagement>\n\
         \x20   <dependencies>\n\
         \x20     <dependency>\n\
         \x20       <groupId>com.example</groupId>\n\
         \x20       <artifactId>core</artifactId>\n\
         \x20       <version>1.0.0</version>\n\
         \x20     </dependency>\n\
         \x20   </dependencies>\n\
         \x20 </dependencyManagement>\n\
         </project>\n";

    let mut versions = BTreeMap::new();
    versions.insert("com.example/core".to_string(), "1.1.0".to_string());

    let (output, applied) = update(input, None, &versions).unwrap();

    assert!(output.contains("<version>1.1.0</version>"));
    assert_eq!(
        applied,
        vec![("com.example/core".to_string(), "1.1.0".to_string())]
    );
}

#[test]
fn update_refuses_a_property_version_and_non_poms() {
    let input = "<project>\n  <groupId>g</groupId>\n  <artifactId>a</artifactId>\n  <version>${rev}</version>\n</project>\n";
    match update(input, Some("1.0.0"), &BTreeMap::new()) {
        Err(SampoError::Release(m)) => {
            assert_eq!(m, "Manifest pom.xml has no static <version> to update (found `${rev}`)")
        }
        other => panic!("unexpected {:?}", other),
    }
    match update("<settings/>", None, &BTreeMap::new()) {
        Err(SampoError::Release(m)) => assert_eq!(m, "Manifest pom.xml is not a valid Maven POM"),
        other => panic!("unexpected {:?}", other),
    }
}

fn parsed(src: &str) -> sampo_core::pom::ParsedPom {
    parse_pom_node(&parse_doc(src)).expect("a POM")
}

#[test]
fn discovery_keeps_static_modules_and_links_them() {
    let root = "<project>\n  <groupId>com.example</groupId>\n  <artifactId>parent</artifactId>\n  <version>1.0.0</version>\n  <modules><module>core</module><module>app</module></modules>\n</project>\n";
    let core = "<project>\n  <parent><groupId>com.example</groupId><artifactId>parent</artifactId><version>1.0.0</version></parent>\n  <artifactId>core</artifactId>\n</project>\n";
    let app = "<project>\n  <parent><groupId>com.example</groupId><artifactId>parent</artifactId><version>1.0.0</version></parent>\n  <artifactId>app</artifactId>\n  <dependencies>\n    <dependency><groupId>${project.groupId}</groupId><artifactId>core</artifactId><version>1.0.0</version></dependency>\n    <dependency><groupId>com.example</groupId><artifactId>testkit</artifactId><scope>test</scope></dependency>\n  </dependencies>\n</project>\n";
    let snapshot = "<project>\n  <groupId>com.example</groupId>\n  <artifactId>testkit</artifactId>\n  <version>2.0.0-SNAPSHOT</version>\n</project>\n";
    let root_pom = parsed(root);
    assert_eq!(root_pom.modules, vec!["core".to_string(), "app".to_string()]);
    let reactor = vec![
        ("/ws".to_string(), "/ws/pom.xml".to_string(), root_pom),
        ("/ws/app".to_string(), "/ws/app/pom.xml".to_string(), parsed(app)),
        ("/ws/core".to_string(), "/ws/core/pom.xml".to_string(), parsed(core)),
        ("/ws/kit".to_string(), "/ws/kit/pom.xml".to_string(), parsed(snapshot)),
    ];
    let (packages, warnings) = discover_members(&reactor);
    let names: Vec<&str> = packages.iter().map(|p| p.name.as_str()).collect();
    assert_eq!(names, vec!["com.example/parent", "com.example/app", "com.example/core"]);
    assert_eq!(packages[1].version, "1.0.0");
    assert_eq!(packages[1].identifier, "maven/com.example/app");
    assert_eq!(
        packages[1].internal_deps,
        vec!["maven/com.example/core".to_string(), "maven/com.example/parent".to_string()]
    );
    assert!(packages[0].internal_deps.is_empty());
    assert_eq!(
        warnings,
        vec!["Warning: skipping 'com.example/testkit' (/ws/kit/pom.xml): its version `2.0.0-SNAPSHOT` is a -SNAPSHOT; Sampo manages static release versions, remove the suffix for Sampo to manage it".to_string()]
    );
}

#[test]
fn publishability_follows_version_and_deploy_skip() {
    let pom = parsed(&simple_pom("com.example", "lib", "1.0.0"));
    assert_eq!(is_publishable("pom.xml", &Some(pom.clone()), false).unwrap(), true);
    assert_eq!(is_publishable("pom.xml", &Some(pom), true).unwrap(), false);
    let versionless = parsed("<project><groupId>g</groupId><artifactId>a</artifactId></project>");
    match is_publishable("pom.xml", &Some(versionless), false) {
        Err(SampoError::Publish(m)) => assert_eq!(m, "Manifest pom.xml is missing a version field"),
        other => panic!("unexpected {:?}", other),
    }
    let skip = parsed("<project><properties><maven.deploy.skip> TRUE </maven.deploy.skip></properties></project>");
    assert_eq!(skip.deploy_skip, Some(true));
}

#[test]
fn parent_location_defaults_to_the_directory_above() {
    let child = parsed("<project><parent><groupId>g</groupId><artifactId>p</artifactId></parent></project>");
    assert_eq!(parent_pom_location(&child), Some("../pom.xml".to_string()));
    let external = parsed("<project><parent><relativePath/></parent></project>");
    assert_eq!(parent_pom_location(&external), None);
}

#[test]
fn dependency_versions_are_read_from_parent_then_dependencies() {
    let input = "<project><parent><groupId>g</groupId><artifactId>p</artifactId><version>1.0</version></parent><artifactId>a</artifactId><dependencies><dependency><groupId>g</groupId><artifactId>d</artifactId><version>${d.version}</version></dependency></dependencies></project>";
    let spans = locate_pom_spans(&parse_doc(input));
    assert_eq!(find_dependency_version(&spans, "g/p"), Some("1.0".to_string()));
    assert_eq!(find_dependency_version(&spans, "g/d"), Some("${d.version}".to_string()));
    assert_eq!(find_dependency_version(&spans, "g/x"), None);
}
