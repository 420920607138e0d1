use ecargo::filter::{filter_pkgs, PkgFilter};
use ecargo::pipeline::{run_load, LoadStage};
use ecargo::project::{Metadata, PkgMeta, Project};

fn mk_meta(name: &str) -> PkgMeta {
    PkgMeta {
        id: format!("{name} 1.0.0"),
        name: name.to_string(),
        version: "1.0.0".to_string(),
        requirements: Vec::new(),
        description: None,
        license: None,
        keywords: Vec::new(),
        authors: Vec::new(),
        homepage: None,
        repository: None,
        documentation: None,
        features: Vec::new(),
        source: None,
        manifest_dir: String::new(),
        readme_path: None,
        changelog_path: None,
    }
}

fn load(names: &[&str]) -> Project {
    let meta = Metadata {
        packages: names.iter().map(|n| mk_meta(n)).collect(),
        resolve: None,
        root_id: None,
    };
    let mut msgs = run_load(Ok(meta));
    match msgs.pop() {
        Some(LoadStage::Finished(p)) => p,
        _ => panic!("load did not finish"),
    }
}

#[test]
fn filter_selects_by_name_substring() {
    let p = load(&["serde", "serde_json", "toml", "rand"]);
    let f = PkgFilter::from_str("serde");
    let keys = filter_pkgs(&p.packages, &f);
    assert_eq!(keys.len(), 2);
    assert_eq!(keys[0].idx, 0);
    assert_eq!(keys[1].idx, 1);
}

#[test]
fn filter_matches_inner_substring() {
    let p = load(&["serde_json", "json5"]);
    let f = PkgFilter::from_str("json");
    let keys = filter_pkgs(&p.packages, &f);
    assert_eq!(keys.len(), 2);
    assert!(f.matches(p.packages.at(0)));
    assert!(f.matches(p.packages.at(1)));
}

#[test]
fn empty_filter_selects_everything() {
    let p = load(&["serde", "toml"]);
    let f = PkgFilter::from_str("");
    assert_eq!(filter_pkgs(&p.packages, &f).len(), 2);
}

#[test]
fn unmatched_filter_selects_nothing() {
    let p = load(&["serde", "toml"]);
    let f = PkgFilter::from_str("tokio");
    assert!(filter_pkgs(&p.packages, &f).is_empty());
}

#[test]
fn filter_is_case_sensitive_and_checks_whole_needle() {
    let p = load(&["serde"]);
    assert!(!PkgFilter::from_str("Serde").matches(p.packages.at(0)));
    assert!(!PkgFilter::from_str("serdes").matches(p.packages.at(0)));
    assert!(PkgFilter::from_str("erd").matches(p.packages.at(0)));
}
