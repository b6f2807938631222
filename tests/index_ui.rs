use samogon::index::{
    parse_formula, parse_json_repo, repo_from_raw, Field, RawBottle, RawFormula, RepositoryParseError,
};
use samogon::ui::{common_bar_prefix, install_layout, install_prefix};

const INDEX: &str = r#"[
 {"name": "a", "desc": "first", "versions": {"stable": "1.0"}, "revision": 1,
  "dependencies": [], "optional_dependencies": [], "recommended_dependencies": [],
  "bottle": {"stable": {"files": {"sonoma": {"cellar": ":any", "url": "https://x/a", "sha256": "00"}}}}},
 {"name": "b", "desc": "second", "versions": {"stable": "2.0"},
  "dependencies": ["a"], "optional_dependencies": ["c"], "recommended_dependencies": [],
  "bottle": {"stable": {"files": {}}}}
]"#;

#[test]
fn index_parses_records() {
    let v: serde_json::Value = serde_json::from_str(INDEX).unwrap();
    let repo = parse_json_repo(&v).unwrap();
    assert_eq!(repo.formulae.len(), 2);
    let b = &repo.formulae[repo.lookup(&"b".to_string()).unwrap()];
    assert_eq!(b.revision, 0);
    assert_eq!(b.deps, vec!["a".to_string()]);
    assert_eq!(b.opt_deps, vec!["c".to_string()]);
    let a = &repo.formulae[repo.lookup(&"a".to_string()).unwrap()];
    assert_eq!(a.revision, 1);
    assert_eq!(a.bottles.len(), 1);
    assert_eq!(a.bottles[0].0, "sonoma");
    assert_eq!(a.bottles[0].1.url, "https://x/a");
}

#[test]
fn index_must_be_an_array() {
    let v: serde_json::Value = serde_json::from_str("{}").unwrap();
    assert!(matches!(parse_json_repo(&v), Err(RepositoryParseError::NotAnArray)));
}

#[test]
fn missing_field_names_package_and_field() {
    let v: serde_json::Value = serde_json::from_str(
        r#"[{"name": "q", "desc": "d", "versions": {}, "dependencies": []}]"#,
    )
    .unwrap();
    match parse_json_repo(&v) {
        Err(RepositoryParseError::MissingField { package, field }) => {
            assert_eq!(package, "q");
            assert_eq!(field, Field::StableVersion);
        }
        other => panic!("unexpected {:?}", other.map(|r| r.formulae.len())),
    }
}

#[test]
fn non_string_dependency_is_rejected() {
    let raw = RawFormula {
        name: Some("p".to_string()),
        desc: Some("d".to_string()),
        stable_version: Some("1".to_string()),
        revision: None,
        deps: Some(vec![Some("a".to_string()), None]),
        opt_deps: Some(Vec::new()),
        rec_deps: Some(Vec::new()),
        bottles: Some(Vec::new()),
    };
    match parse_formula(&raw) {
        Err(RepositoryParseError::MissingField { package, field }) => {
            assert_eq!(package, "p");
            assert_eq!(field, Field::Dependencies);
        }
        other => panic!("unexpected {:?}", other.map(|f| f.name)),
    }
}

#[test]
fn missing_name_has_empty_package() {
    let raw = RawFormula {
        name: None,
        desc: None,
        stable_version: None,
        revision: None,
        deps: None,
        opt_deps: None,
        rec_deps: None,
        bottles: None,
    };
    match parse_formula(&raw) {
        Err(RepositoryParseError::MissingField { package, field }) => {
            assert_eq!(package, "");
            assert_eq!(field, Field::Name);
        }
        other => panic!("unexpected {:?}", other.map(|f| f.name)),
    }
}

#[test]
fn bar_prefix_is_two_spaces() {
    assert_eq!(common_bar_prefix(), "  ");
}

#[test]
fn confirmation_text() {
    assert_eq!(install_prefix(3), " -> will install 3 pkgs: ");
    assert_eq!(install_prefix(0), " -> will install 0 pkgs: ");
    assert_eq!(install_prefix(120), " -> will install 120 pkgs: ");
}

#[test]
fn layout_on_wide_and_narrow_terminals() {
    assert_eq!(install_layout(120, 26), (26, 92, false));
    assert_eq!(install_layout(40, 26), (4, 34, true));
    assert_eq!(install_layout(20, 26), (0, 20, true));
}

fn raw(name: &str, bottles: Vec<(String, RawBottle)>) -> RawFormula {
    RawFormula {
        name: Some(name.to_string()),
        desc: Some("d".to_string()),
        stable_version: Some("1".to_string()),
        revision: Some(4),
        deps: Some(Vec::new()),
        opt_deps: Some(Vec::new()),
        rec_deps: Some(Vec::new()),
        bottles: Some(bottles),
    }
}

fn raw_bottle(url: &str) -> RawBottle {
    RawBottle {
        cellar: Some(":any".to_string()),
        url: Some(url.to_string()),
        sha256: Some("h".to_string()),
    }
}

#[test]
fn duplicate_platform_key_is_rejected() {
    let r = raw(
        "dup",
        vec![("sonoma".to_string(), raw_bottle("u1")), ("sonoma".to_string(), raw_bottle("u2"))],
    );
    match parse_formula(&r) {
        Err(RepositoryParseError::MissingField { package, field }) => {
            assert_eq!(package, "dup");
            assert_eq!(field, Field::BottleFiles);
        }
        other => panic!("unexpected {:?}", other.map(|f| f.name)),
    }
}

#[test]
fn later_object_of_same_name_wins() {
    let raws = vec![
        raw("a", vec![("sonoma".to_string(), raw_bottle("old"))]),
        raw("b", Vec::new()),
        raw("a", vec![("sonoma".to_string(), raw_bottle("new"))]),
    ];
    let repo = repo_from_raw(&raws).unwrap();
    assert_eq!(repo.formulae.len(), 2);
    let a = &repo.formulae[repo.lookup(&"a".to_string()).unwrap()];
    assert_eq!(a.bottles[0].1.url, "new");
    assert_eq!(a.revision, 4);
}

#[test]
fn first_malformed_object_is_reported() {
    let mut bad = raw("second", Vec::new());
    bad.desc = None;
    let mut worse = raw("third", Vec::new());
    worse.stable_version = None;
    let raws = vec![raw("first", Vec::new()), bad, worse];
    match repo_from_raw(&raws) {
        Err(RepositoryParseError::MissingField { package, field }) => {
            assert_eq!(package, "second");
            assert_eq!(field, Field::Description);
        }
        other => panic!("unexpected {:?}", other.map(|r| r.formulae.len())),
    }
}

#[test]
fn one_package_document() {
    let v: serde_json::Value = serde_json::from_str(
        r#"[{"name":"a","desc":"d","versions":{"stable":"1.0"},"dependencies":["b"],
            "optional_dependencies":[],"recommended_dependencies":[],
            "bottle":{"stable":{"files":{"sonoma":{"cellar":":any","url":"u","sha256":"h"}}}}}]"#,
    )
    .unwrap();
    let repo = parse_json_repo(&v).unwrap();
    assert_eq!(repo.formulae.len(), 1);
    let a = &repo.formulae[0];
    assert_eq!(a.name, "a");
    assert_eq!(a.description, "d");
    assert_eq!(a.version, "1.0");
    assert_eq!(a.revision, 0);
    assert_eq!(a.deps, vec!["b".to_string()]);
    assert!(a.opt_deps.is_empty() && a.rec_deps.is_empty());
    assert_eq!(a.bottles.len(), 1);
    assert_eq!(a.bottles[0].0, "sonoma");
    assert_eq!(a.bottles[0].1.cellar, ":any");
    assert_eq!(a.bottles[0].1.sha256, "h");
}
