use sampo_core::pom::ParsedPom;
use sampo_core::reactor::{module_targets, sorted_by_path, ReactorWalk};

fn pom(modules: &[&str]) -> ParsedPom {
    ParsedPom {
        group_id: None,
        artifact_id: None,
        version: None,
        parent: None,
        modules: modules.iter().map(|m| m.to_string()).collect(),
        dependencies: Vec::new(),
        deploy_skip: None,
        deploy_repository_url: None,
    }
}

#[test]
fn reactor_walk_takes_the_root_then_its_modules_last_first() {
    let mut walk = ReactorWalk::new("/w");
    assert_eq!(walk.next_pom(), Some("/w/pom.xml".to_string()));
    assert!(walk.unreadable_ends_walk());
    let root = pom(&[" a ", "", "b/pom.xml", "c/custom.xml"]);
    let targets = module_targets("/w", &root);
    assert_eq!(targets, vec!["/w/a".to_string(), "/w/b/pom.xml".to_string(), "/w/c/custom.xml".to_string()]);
    let warnings = walk.add_pom("/w".to_string(), "/w/pom.xml".to_string(), root, &targets, &[false, true, true]);
    assert_eq!(warnings.len(), 1);
    assert!(warnings[0].contains("/w/c/custom.xml"));
    assert!(!walk.unreadable_ends_walk());
    assert_eq!(walk.next_pom(), Some("/w/b/pom.xml".to_string()));
    assert_eq!(walk.next_pom(), Some("/w/a/pom.xml".to_string()));
    assert_eq!(walk.next_pom(), None);
}

#[test]
fn reactor_walk_skips_paths_already_taken() {
    let mut walk = ReactorWalk::new("/w");
    assert_eq!(walk.next_pom(), Some("/w/pom.xml".to_string()));
    let root = pom(&["a", "./a", "../w/a"]);
    let targets = module_targets("/w", &root);
    walk.add_pom("/w".to_string(), "/w/pom.xml".to_string(), root, &targets, &[false, false, false]);
    assert_eq!(walk.next_pom(), Some("/w/a/pom.xml".to_string()));
    assert_eq!(walk.next_pom(), None);
}

#[test]
fn reactor_poms_are_sorted_by_path() {
    let found = vec![
        ("/w/b".to_string(), "/w/b/pom.xml".to_string(), pom(&[])),
        ("/w".to_string(), "/w/pom.xml".to_string(), pom(&[])),
        ("/w/a".to_string(), "/w/a/pom.xml".to_string(), pom(&[])),
    ];
    let paths: Vec<String> = sorted_by_path(found).into_iter().map(|(_, p, _)| p).collect();
    assert_eq!(paths, vec!["/w/a/pom.xml".to_string(), "/w/b/pom.xml".to_string(), "/w/pom.xml".to_string()]);
}
