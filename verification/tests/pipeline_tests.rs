use ecargo::pipeline::{run_load, LoadStage};
use ecargo::project::Metadata;

fn empty_meta() -> Metadata {
    Metadata { packages: Vec::new(), resolve: None, root_id: None }
}

#[test]
fn successful_load_emits_all_stages_in_order() {
    let msgs = run_load(Ok(empty_meta()));
    assert_eq!(msgs.len(), 5);
    assert!(matches!(msgs[0], LoadStage::MetadataQuery));
    assert!(matches!(msgs[1], LoadStage::PkgInfoCollect));
    assert!(matches!(msgs[2], LoadStage::Resolve));
    assert!(matches!(msgs[3], LoadStage::GenDepGraph));
    assert!(matches!(msgs[4], LoadStage::Finished(_)));
}

#[test]
fn failed_metadata_query_short_circuits() {
    let msgs = run_load(Err("manifest not found".to_string()));
    assert_eq!(msgs.len(), 2);
    assert!(matches!(msgs[0], LoadStage::MetadataQuery));
    match &msgs[1] {
        LoadStage::Error(e) => assert_eq!(e, "manifest not found"),
        _ => panic!("expected the error message"),
    }
}

#[test]
fn finished_project_starts_with_empty_license_index() {
    let mut msgs = run_load(Ok(empty_meta()));
    match msgs.pop() {
        Some(LoadStage::Finished(p)) => {
            assert!(p.license_map.is_empty());
            assert!(p.root.is_none());
            assert_eq!(p.packages.len(), 0);
        },
        _ => panic!("expected a finished project"),
    }
}
