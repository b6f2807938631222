use samogon::fetch::staging_dir_name;
use samogon::platform::{platform_name, PlatformError};
use samogon::repo::FormulaStable;
use samogon::ui::progress_prefix;
use samogon::util::{normalize_path, PathComponent};

#[test]
fn platform_names() {
    assert_eq!(platform_name(true, Some((14, 2)), Some("arm64")).unwrap(), "arm64_sonoma");
    assert_eq!(platform_name(true, Some((10, 15)), Some("x86_64")).unwrap(), "catalina");
    assert_eq!(platform_name(true, Some((11, 0)), Some("x86_64")).unwrap(), "big_sur");
}

#[test]
fn platform_errors() {
    assert_eq!(platform_name(false, Some((14, 0)), Some("arm64")), Err(PlatformError::NotMacos));
    assert_eq!(
        platform_name(true, Some((10, 9)), Some("x86_64")),
        Err(PlatformError::UnsupportedMacosVersion)
    );
    assert_eq!(platform_name(true, None, Some("x86_64")), Err(PlatformError::UnsupportedMacosVersion));
    assert_eq!(
        platform_name(true, Some((13, 1)), Some("ppc")),
        Err(PlatformError::UnsupportedArchitecture)
    );
    assert_eq!(platform_name(true, Some((13, 1)), None), Err(PlatformError::UnsupportedArchitecture));
}

#[test]
fn normalize_resolves_dots() {
    let cs = vec![
        PathComponent::RootDir,
        PathComponent::Normal("a".to_string()),
        PathComponent::CurDir,
        PathComponent::Normal("b".to_string()),
        PathComponent::ParentDir,
        PathComponent::Normal("c".to_string()),
    ];
    let n = normalize_path(&cs);
    assert!(n.rooted);
    assert!(n.prefix.is_none());
    assert_eq!(n.parts, vec!["a".to_string(), "c".to_string()]);
}

#[test]
fn normalize_parent_of_nothing_stays() {
    let cs = vec![
        PathComponent::Prefix("C:".to_string()),
        PathComponent::ParentDir,
        PathComponent::Normal("x".to_string()),
    ];
    let n = normalize_path(&cs);
    assert_eq!(n.prefix, Some("C:".to_string()));
    assert!(!n.rooted);
    assert_eq!(n.parts, vec!["x".to_string()]);
}

#[test]
fn staging_name_is_digest_of_path_and_time() {
    let name = staging_dir_name("ab", 0);
    assert_eq!(name.len(), 64);
    assert!(name.chars().all(|c| c.is_ascii_hexdigit() && !c.is_ascii_uppercase()));
    assert_eq!(staging_dir_name("a", 12), staging_dir_name("a1", 2));
    assert_ne!(staging_dir_name("a", 1), staging_dir_name("a", 2));
}

#[test]
fn progress_label() {
    let f = FormulaStable {
        name: "jq".to_string(),
        description: String::new(),
        version: "1.7.1".to_string(),
        revision: 1,
        bottles: Vec::new(),
        deps: Vec::new(),
        opt_deps: Vec::new(),
        rec_deps: Vec::new(),
    };
    assert_eq!(progress_prefix(&f), "  jq 1.7.1_1");
}
