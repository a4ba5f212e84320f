use sampo_core::pom::{parent_walk_step, discover_members, is_publishable, parse_pom, ParentWalkStep, ParsedPom};
use sampo_core::types::{ConstraintCheckResult, PackageKind};

fn simple_pom(group_id: &str, artifact_id: &str, version: &str) -> String {
    format!(
        "<?xml version=\"1.0\" encoding=\"UTF-8\"?>\n\
         <project xmlns=\"http://maven.apache.org/POM/4.0.0\">\n\
         \x20 <modelVersion>4.0.0</modelVersion>\n\
         \x20 <groupId>{group_id}</groupId>\n\
         \x20 <artifactId>{artifact_id}</artifactId>\n\
         \x20 <version>{version}</version>\n\
         </project>\n"
    )
}

fn module(dir: &str, text: &str) -> (String, String, ParsedPom) {
    let path = if dir.is_empty() { "pom.xml".to_string() } else { format!("{dir}/pom.xml") };
    (dir.to_string(), path, parse_pom(text).expect("a POM"))
}

fn has(list: &[String], id: &str) -> bool {
    list.iter().any(|x| x == id)
}

#[test]
fn discover_treats_test_scoped_deps_as_dev_deps() {
    let root = "<project>\n\
         \x20 <groupId>com.example</groupId>\n\
         \x20 <artifactId>root</artifactId>\n\
         \x20 <version>1.0.0</version>\n\
         \x20 <packaging>pom</packaging>\n\
         \x20 <modules>\n\
         \x20   <module>a</module>\n\
         \x20   <module>b</module>\n\
         \x20 </modules>\n\
         </project>\n";
    let b = "<project>\n\
         \x20 <groupId>com.example</groupId>\n\
         \x20 <artifactId>b</artifactId>\n\
         \x20 <version>1.0.0</version>\n\
         \x20 <dependencies>\n\
         \x20   <dependency>\n\
         \x20     <groupId>com.example</groupId>\n\
         \x20     <artifactId>a</artifactId>\n\
         \x20     <version>1.0.0</version>\n\
         \x20     <scope>test</scope>\n\
         \x20   </dependency>\n\
         \x20 </dependencies>\n\
         </project>\n";
    let reactor = vec![
        module("a", &simple_pom("com.example", "a", "1.0.0")),
        module("b", b),
        module("", root),
    ];
    let (packages, warnings) = discover_members(&reactor);
    assert!(warnings.is_empty());
    let b = packages.iter().find(|p| p.name == "com.example/b").unwrap();
    assert!(has(&b.internal_dev_deps, "maven/com.example/a"));
    assert!(!has(&b.internal_deps, "maven/com.example/a"));
}

#[test]
fn dependency_management_does_not_create_ordering_edges() {
    let parent = "<?xml version=\"1.0\" encoding=\"UTF-8\"?>\n\
         <project xmlns=\"http://maven.apache.org/POM/4.0.0\">\n\
         \x20 <modelVersion>4.0.0</modelVersion>\n\
         \x20 <groupId>com.example</groupId>\n\
         \x20 <artifactId>parent</artifactId>\n\
         \x20 <version>1.0.0</version>\n\
         \x20 <packaging>pom</packaging>\n\
         \x20 <modules>\n\
         \x20   <module>a</module>\n\
         \x20   <module>b</module>\n\
         \x20 </modules>\n\
         \x20 <dependencyManagement>\n\
         \x20   <dependencies>\n\
         \x20     <dependency>\n\
         \x20       <groupId>com.example</groupId>\n\
         \x20       <artifactId>a</artifactId>\n\
         \x20       <version>1.0.0</version>\n\
         \x20     </dependency>\n\
         \x20     <dependency>\n\
         \x20       <groupId>com.example</groupId>\n\
         \x20       <artifactId>b</artifactId>\n\
         \x20       <version>1.0.0</version>\n\
         \x20     </dependency>\n\
         \x20   </dependencies>\n\
         \x20 </dependencyManagement>\n\
         </project>\n";
    let child = |artifact: &str| {
        format!(
            "<project>\n\
             \x20 <parent>\n\
             \x20   <groupId>com.example</groupId>\n\
             \x20   <artifactId>parent</artifactId>\n\
             \x20   <version>1.0.0</version>\n\
             \x20 </parent>\n\
             \x20 <artifactId>{artifact}</artifactId>\n\
             </project>\n"
        )
    };
    let reactor = vec![module("a", &child("a")), module("b", &child("b")), module("", parent)];
    let (packages, _) = discover_members(&reactor);
    assert_eq!(packages.len(), 3);

    let parent = packages.iter().find(|p| p.name == "com.example/parent").unwrap();
    assert!(!has(&parent.internal_deps, "maven/com.example/a"));
    assert!(!has(&parent.internal_deps, "maven/com.example/b"));
    assert!(has(&parent.internal_dev_deps, "maven/com.example/a"));
    assert!(has(&parent.internal_dev_deps, "maven/com.example/b"));

    for child in ["com.example/a", "com.example/b"] {
        let pkg = packages.iter().find(|p| p.name == child).unwrap();
        assert!(has(&pkg.internal_deps, "maven/com.example/parent"));
    }
}

#[test]
fn text_that_is_no_pom_gives_no_declarations() {
    assert!(parse_pom("<settings><a>1</a></settings>").is_none());
    assert!(parse_pom("not xml at all <<<").is_none());
    let p = parse_pom(&simple_pom("g", "a", "1.2.3")).unwrap();
    assert_eq!(p.artifact_id.as_deref(), Some("a"));
}

fn discovered(modules: Vec<(String, String, ParsedPom)>) -> Vec<sampo_core::types::PackageInfo> {
    discover_members(&modules).0
}

#[test]
fn pom_tests_discover_single_root_package() {
    let packages = discovered(vec![module("/repo", &simple_pom("com.example", "my-lib", "1.2.3"))]);
    assert_eq!(packages.len(), 1);
    let pkg = &packages[0];
    assert_eq!(pkg.name, "com.example/my-lib");
    assert_eq!(pkg.version, "1.2.3");
    assert_eq!(pkg.kind, PackageKind::Maven);
    assert_eq!(pkg.identifier, "maven/com.example/my-lib");
    assert_eq!(pkg.path, "/repo");
}

#[test]
fn discover_resolves_parent_group_id_property() {
    let root = "<project>\n\
         \x20 <groupId>com.example</groupId>\n\
         \x20 <artifactId>parent</artifactId>\n\
         \x20 <version>1.0.0</version>\n\
         \x20 <packaging>pom</packaging>\n\
         \x20 <modules>\n\
         \x20   <module>core</module>\n\
         \x20   <module>plugin</module>\n\
         \x20 </modules>\n\
         </project>\n";
    let plugin = "<project>\n\
         \x20 <parent>\n\
         \x20   <groupId>com.example</groupId>\n\
         \x20   <artifactId>parent</artifactId>\n\
         \x20   <version>1.0.0</version>\n\
         \x20 </parent>\n\
         \x20 <groupId>com.example.plugins</groupId>\n\
         \x20 <artifactId>plugin</artifactId>\n\
         \x20 <version>1.0.0</version>\n\
         \x20 <dependencies>\n\
         \x20   <dependency>\n\
         \x20     <groupId>${project.parent.groupId}</groupId>\n\
         \x20     <artifactId>core</artifactId>\n\
         \x20     <version>1.0.0</version>\n\
         \x20   </dependency>\n\
         \x20 </dependencies>\n\
         </project>\n";
    let packages = discovered(vec![
        module("core", &simple_pom("com.example", "core", "1.0.0")),
        module("plugin", plugin),
        module("", root),
    ]);
    let plugin = packages.iter().find(|p| p.name == "com.example.plugins/plugin").unwrap();
    assert!(has(&plugin.internal_deps, "maven/com.example/core"));
}

#[test]
fn discover_skips_snapshot_versions() {
    assert!(discovered(vec![module("", &simple_pom("com.example", "lib", "1.2.3-SNAPSHOT"))]).is_empty());
}

#[test]
fn discover_skips_property_versions() {
    assert!(discovered(vec![module("", &simple_pom("com.example", "lib", "${revision}"))]).is_empty());
}

#[test]
fn discover_skips_versionless_packages() {
    let text = "<project>\n\
         \x20 <groupId>com.example</groupId>\n\
         \x20 <artifactId>lib</artifactId>\n\
         </project>\n";
    assert!(discovered(vec![module("", text)]).is_empty());
}

fn own_deploy_skip(p: &ParsedPom) -> bool {
    matches!(parent_walk_step(&None, p, true, false), ParentWalkStep::Found(true))
}

#[test]
fn is_publishable_accepts_static_versions() {
    let p = parse_pom(&simple_pom("com.example", "lib", "1.0.0"));
    let skip = p.as_ref().map(own_deploy_skip).unwrap_or(false);
    assert!(is_publishable("pom.xml", &p, skip).unwrap());
}

#[test]
fn is_publishable_errors_without_version() {
    let text = "<project>\n\
         \x20 <groupId>com.example</groupId>\n\
         \x20 <artifactId>lib</artifactId>\n\
         </project>\n";
    let err = is_publishable("pom.xml", &parse_pom(text), false).unwrap_err();
    assert!(err.to_string().contains("missing a version field"));
}

#[test]
fn is_publishable_honors_maven_deploy_skip() {
    let text = "<project>\n\
         \x20 <groupId>com.example</groupId>\n\
         \x20 <artifactId>lib</artifactId>\n\
         \x20 <version>1.0.0</version>\n\
         \x20 <properties>\n\
         \x20   <maven.deploy.skip>true</maven.deploy.skip>\n\
         \x20 </properties>\n\
         </project>\n";
    let p = parse_pom(text);
    let skip = p.as_ref().map(own_deploy_skip).unwrap_or(false);
    assert!(skip);
    assert!(!is_publishable("pom.xml", &p, skip).unwrap());
}

#[test]
fn version_exists_defers_to_private_deploy_repositories() {
    let text = "<project>\n\
         \x20 <groupId>com.example</groupId>\n\
         \x20 <artifactId>internal-lib</artifactId>\n\
         \x20 <version>1.0.0</version>\n\
         \x20 <distributionManagement>\n\
         \x20   <repository>\n\
         \x20     <id>corp</id>\n\
         \x20     <url>https://artifactory.example.com/releases</url>\n\
         \x20   </repository>\n\
         \x20 </distributionManagement>\n\
         </project>\n";
    let parsed = parse_pom(text).unwrap();
    let private = matches!(parent_walk_step(&None, &parsed, true, true), ParentWalkStep::Found(true));
    assert!(private);
    let reply = sampo_core::registry::RegistryReply::from_response(String::new(), 200, "200 OK".to_string(), String::new(), None);
    let exists = sampo_core::adapters::PackageAdapter::Maven
        .version_exists("com.example/internal-lib", "1.0.0", private, &reply)
        .unwrap();
    assert!(!exists);
}

#[test]
fn central_deploy_urls_are_public() {
    assert!(sampo_core::pom::central_url("https://central.sonatype.com/api/v1/publisher"));
    assert!(sampo_core::pom::central_url(" https://repo1.maven.org/maven2 "));
    assert!(!sampo_core::pom::central_url("https://artifactory.example.com/releases"));
}

/// The answer of the walk up the in-tree parents of the POM at `path`, the
/// POMs of the tree being `files`.
fn walk(files: &[(&str, &str)], path: &str, private_repository: bool) -> bool {
    let read = |p: &str| files.iter().find(|(f, _)| *f == p).and_then(|(_, t)| parse_pom(t));
    let module = read(path).unwrap();
    let mut step = parent_walk_step(&None, &module, true, private_repository);
    let mut dir = path.rsplit_once('/').map(|(d, _)| d.to_string()).unwrap_or_default();
    for _ in 0..10 {
        let (location, expected) = match step {
            ParentWalkStep::Found(answer) => return answer,
            ParentWalkStep::Stop => return false,
            ParentWalkStep::Follow { location, expected } => (location, expected),
        };
        let mut candidate = sampo_core::paths::clean_path(&format!("{dir}/{location}"));
        if !candidate.ends_with(".xml") {
            candidate = format!("{candidate}/pom.xml");
        }
        let Some(parent) = read(&candidate) else { return false };
        step = parent_walk_step(&expected, &parent, false, private_repository);
        dir = candidate.rsplit_once('/').map(|(d, _)| d.to_string()).unwrap_or_default();
    }
    false
}

#[test]
fn is_publishable_inherits_maven_deploy_skip_from_parent() {
    let parent = "<project>\n\
         \x20 <groupId>com.example</groupId>\n\
         \x20 <artifactId>parent</artifactId>\n\
         \x20 <version>1.0.0</version>\n\
         \x20 <packaging>pom</packaging>\n\
         \x20 <properties>\n\
         \x20   <maven.deploy.skip>true</maven.deploy.skip>\n\
         \x20 </properties>\n\
         </project>\n";
    let child = "<project>\n\
         \x20 <parent>\n\
         \x20   <groupId>com.example</groupId>\n\
         \x20   <artifactId>parent</artifactId>\n\
         \x20   <version>1.0.0</version>\n\
         \x20 </parent>\n\
         \x20 <artifactId>child</artifactId>\n\
         </project>\n";
    let overriding = "<project>\n\
         \x20 <parent>\n\
         \x20   <groupId>com.example</groupId>\n\
         \x20   <artifactId>parent</artifactId>\n\
         \x20   <version>1.0.0</version>\n\
         \x20 </parent>\n\
         \x20 <artifactId>override</artifactId>\n\
         \x20 <properties>\n\
         \x20   <maven.deploy.skip>false</maven.deploy.skip>\n\
         \x20 </properties>\n\
         </project>\n";
    let files = [("/r/pom.xml", parent), ("/r/child/pom.xml", child), ("/r/override/pom.xml", overriding)];
    let child_skip = walk(&files, "/r/child/pom.xml", false);
    assert!(!is_publishable("/r/child/pom.xml", &parse_pom(child), child_skip).unwrap());
    let override_skip = walk(&files, "/r/override/pom.xml", false);
    assert!(is_publishable("/r/override/pom.xml", &parse_pom(overriding), override_skip).unwrap());
}

#[test]
fn parent_walk_stops_at_external_parents() {
    let unrelated = "<project>\n\
         \x20 <groupId>com.unrelated</groupId>\n\
         \x20 <artifactId>other-checkout</artifactId>\n\
         \x20 <version>1.0.0</version>\n\
         \x20 <properties>\n\
         \x20   <maven.deploy.skip>true</maven.deploy.skip>\n\
         \x20 </properties>\n\
         </project>\n";
    let app = "<project>\n\
         \x20 <parent>\n\
         \x20   <groupId>org.springframework.boot</groupId>\n\
         \x20   <artifactId>spring-boot-starter-parent</artifactId>\n\
         \x20   <version>3.2.0</version>\n\
         \x20 </parent>\n\
         \x20 <groupId>com.example</groupId>\n\
         \x20 <artifactId>app</artifactId>\n\
         \x20 <version>1.0.0</version>\n\
         </project>\n";
    let files = [("/t/pom.xml", unrelated), ("/t/repo/pom.xml", app)];
    let skip = walk(&files, "/t/repo/pom.xml", false);
    assert!(is_publishable("/t/repo/pom.xml", &parse_pom(app), skip).unwrap());
}

#[test]
fn private_deploy_repository_inherits_from_parent() {
    let parent = "<project>\n\
         \x20 <groupId>com.example</groupId>\n\
         \x20 <artifactId>parent</artifactId>\n\
         \x20 <version>1.0.0</version>\n\
         \x20 <packaging>pom</packaging>\n\
         \x20 <distributionManagement>\n\
         \x20   <repository>\n\
         \x20     <id>corp</id>\n\
         \x20     <url>https://artifactory.example.com/releases</url>\n\
         \x20   </repository>\n\
         \x20 </distributionManagement>\n\
         </project>\n";
    let child = "<project>\n\
         \x20 <parent>\n\
         \x20   <groupId>com.example</groupId>\n\
         \x20   <artifactId>parent</artifactId>\n\
         \x20   <version>1.0.0</version>\n\
         \x20 </parent>\n\
         \x20 <artifactId>child</artifactId>\n\
         </project>\n";
    let files = [("/p/pom.xml", parent), ("/p/child/pom.xml", child)];
    assert!(walk(&files, "/p/pom.xml", true));
    assert!(walk(&files, "/p/child/pom.xml", true));
}

fn constraint(text: &str, dep: &str) -> sampo_core::types::ConstraintCheckResult {
    let spans = sampo_core::pom::pom_spans(text);
    let value = sampo_core::pom::find_dependency_version(&spans, dep);
    sampo_core::maven::check_dependency_constraint(dep, value.as_deref())
}

#[test]
fn check_dependency_constraint_skips_or_warns() {

    let manifest = "<project>\n\
         \x20 <groupId>com.example</groupId>\n\
         \x20 <artifactId>cli</artifactId>\n\
         \x20 <version>1.0.0</version>\n\
         \x20 <dependencies>\n\
         \x20   <dependency>\n\
         \x20     <groupId>com.example</groupId>\n\
         \x20     <artifactId>pinned</artifactId>\n\
         \x20     <version>1.2.3</version>\n\
         \x20   </dependency>\n\
         \x20   <dependency>\n\
         \x20     <groupId>com.example</groupId>\n\
         \x20     <artifactId>tracked</artifactId>\n\
         \x20     <version>${project.version}</version>\n\
         \x20   </dependency>\n\
         \x20   <dependency>\n\
         \x20     <groupId>com.example</groupId>\n\
         \x20     <artifactId>held</artifactId>\n\
         \x20     <version>${held.version}</version>\n\
         \x20   </dependency>\n\
         \x20   <dependency>\n\
         \x20     <groupId>com.example</groupId>\n\
         \x20     <artifactId>ranged</artifactId>\n\
         \x20     <version>[1.0,2.0)</version>\n\
         \x20   </dependency>\n\
         \x20 </dependencies>\n\
         </project>\n";
    let expect_skip = |dep: &str, expected_reason: &str| match constraint(manifest, dep) {
        ConstraintCheckResult::Skipped { reason } => assert_eq!(reason, expected_reason),
        other => panic!("expected Skipped for {dep}, got {other:?}"),
    };
    expect_skip("com.example/pinned", "pinned version");
    expect_skip("com.example/tracked", "tracks the project version");
    expect_skip("com.example/ranged", "version range");
    expect_skip("com.example/missing", "dependency 'com.example/missing' not found in manifest");
    match constraint(manifest, "com.example/held") {
        ConstraintCheckResult::Unverifiable { constraint } => assert_eq!(constraint, "${held.version}"),
        other => panic!("expected Unverifiable for a custom property, got {other:?}"),
    }
}

#[test]
fn legacy_project_version_aliases_track_like_the_canonical_form() {

    let manifest = "<project>\n\
         \x20 <groupId>com.example</groupId>\n\
         \x20 <artifactId>cli</artifactId>\n\
         \x20 <version>1.0.0</version>\n\
         \x20 <dependencies>\n\
         \x20   <dependency>\n\
         \x20     <groupId>com.example</groupId>\n\
         \x20     <artifactId>legacy</artifactId>\n\
         \x20     <version>${pom.version}</version>\n\
         \x20   </dependency>\n\
         \x20   <dependency>\n\
         \x20     <groupId>com.example</groupId>\n\
         \x20     <artifactId>bare</artifactId>\n\
         \x20     <version>${version}</version>\n\
         \x20   </dependency>\n\
         \x20 </dependencies>\n\
         </project>\n";
    for dep in ["com.example/legacy", "com.example/bare"] {
        match constraint(manifest, dep) {
            ConstraintCheckResult::Skipped { reason } => assert_eq!(reason, "tracks the project version"),
            other => panic!("expected Skipped for {dep}, got {other:?}"),
        }
    }
}

#[test]
fn dependency_management_property_pin_is_unverifiable() {

    let manifest = "<project>\n\
         \x20 <groupId>com.example</groupId>\n\
         \x20 <artifactId>parent</artifactId>\n\
         \x20 <version>1.0.0</version>\n\
         \x20 <properties>\n\
         \x20   <core.version>1.0.0</core.version>\n\
         \x20 </properties>\n\
         \x20 <dependencies>\n\
         \x20   <dependency>\n\
         \x20     <groupId>com.example</groupId>\n\
         \x20     <artifactId>core</artifactId>\n\
         \x20   </dependency>\n\
         \x20 </dependencies>\n\
         \x20 <dependencyManagement>\n\
         \x20   <dependencies>\n\
         \x20     <dependency>\n\
         \x20       <groupId>com.example</groupId>\n\
         \x20       <artifactId>core</artifactId>\n\
         \x20       <version>${core.version}</version>\n\
         \x20     </dependency>\n\
         \x20   </dependencies>\n\
         \x20 </dependencyManagement>\n\
         </project>\n";
    match constraint(manifest, "com.example/core") {
        ConstraintCheckResult::Unverifiable { constraint } => assert_eq!(constraint, "${core.version}"),
        other => panic!("expected Unverifiable for a dependencyManagement pin, got {other:?}"),
    }
}
