use samogon::deps::{find_deps, ResolveError};
use samogon::repo::{FormulaStable, Repo};

fn formula(name: &str, deps: &[&str]) -> FormulaStable {
    FormulaStable {
        name: name.to_string(),
        description: format!("{} package", name),
        version: "1.0".to_string(),
        revision: 0,
        bottles: Vec::new(),
        deps: deps.iter().map(|d| d.to_string()).collect(),
        opt_deps: Vec::new(),
        rec_deps: Vec::new(),
    }
}

fn repo_of(fs: Vec<FormulaStable>) -> Repo {
    let mut r = Repo::new();
    for f in fs {
        r.insert(f);
    }
    r
}

fn names(v: &[&str]) -> Vec<String> {
    v.iter().map(|s| s.to_string()).collect()
}

#[test]
fn chain_resolves_in_dependency_order() {
    let repo = repo_of(vec![formula("A", &[]), formula("B", &["A"]), formula("C", &["B"])]);
    let out = find_deps(&names(&["C"]), &repo).unwrap();
    assert_eq!(out, names(&["A", "B", "C"]));
}

#[test]
fn cycle_terminates_without_error() {
    let repo = repo_of(vec![formula("A", &["B"]), formula("B", &["A"])]);
    let out = find_deps(&names(&["A"]), &repo).unwrap();
    assert_eq!(out, names(&["B", "A"]));
}

#[test]
fn self_cycle_terminates() {
    let repo = repo_of(vec![formula("A", &["A"])]);
    assert_eq!(find_deps(&names(&["A"]), &repo).unwrap(), names(&["A"]));
}

#[test]
fn missing_request_names_that_package() {
    let repo = repo_of(vec![formula("A", &[])]);
    match find_deps(&names(&["X"]), &repo) {
        Err(ResolveError::MissingPackage(n)) => assert_eq!(n, "X"),
        other => panic!("unexpected {:?}", other),
    }
}

#[test]
fn missing_dependency_is_reported() {
    let repo = repo_of(vec![formula("A", &["Z"]), formula("B", &[])]);
    match find_deps(&names(&["B", "A"]), &repo) {
        Err(ResolveError::MissingPackage(n)) => assert_eq!(n, "Z"),
        other => panic!("unexpected {:?}", other),
    }
}

#[test]
fn shared_dependency_listed_once() {
    let repo = repo_of(vec![
        formula("A", &[]),
        formula("D", &["A"]),
        formula("E", &["A", "D"]),
    ]);
    let out = find_deps(&names(&["D", "E", "A"]), &repo).unwrap();
    assert_eq!(out, names(&["A", "D", "E"]));
}

#[test]
fn diamond_places_each_after_its_dependencies() {
    let repo = repo_of(vec![
        formula("base", &[]),
        formula("left", &["base"]),
        formula("right", &["base"]),
        formula("top", &["left", "right"]),
    ]);
    let out = find_deps(&names(&["top"]), &repo).unwrap();
    assert_eq!(out, names(&["base", "left", "right", "top"]));
}

#[test]
fn empty_request_resolves_to_nothing() {
    let repo = repo_of(vec![formula("A", &[])]);
    assert!(find_deps(&[], &repo).unwrap().is_empty());
}

#[test]
fn optional_dependencies_do_not_count() {
    let mut f = formula("A", &[]);
    f.opt_deps = names(&["missing"]);
    f.rec_deps = names(&["also_missing"]);
    let repo = repo_of(vec![f]);
    assert_eq!(find_deps(&names(&["A"]), &repo).unwrap(), names(&["A"]));
}

#[test]
fn insert_replaces_same_name() {
    let mut repo = repo_of(vec![formula("A", &["B"])]);
    repo.insert(formula("A", &[]));
    assert_eq!(repo.formulae.len(), 1);
    assert!(repo.formulae[0].deps.is_empty());
    assert_eq!(repo.lookup(&"A".to_string()), Some(0));
    assert_eq!(repo.lookup(&"B".to_string()), None);
}

#[test]
fn shared_dependency_follows_request_order() {
    let repo = repo_of(vec![formula("A", &[]), formula("B", &["A"]), formula("C", &["A"])]);
    assert_eq!(find_deps(&names(&["B", "C"]), &repo).unwrap(), names(&["A", "B", "C"]));
    assert_eq!(find_deps(&names(&["C", "B"]), &repo).unwrap(), names(&["A", "C", "B"]));
}

#[test]
fn dependencies_walked_in_listed_order() {
    let repo = repo_of(vec![
        formula("x", &[]),
        formula("y", &[]),
        formula("top", &["y", "x"]),
    ]);
    assert_eq!(find_deps(&names(&["top"]), &repo).unwrap(), names(&["y", "x", "top"]));
}
