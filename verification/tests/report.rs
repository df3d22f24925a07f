use harbor::checks::{
    FindingSet, Safety, SourceNode, SourceUnit, UnsafeCode, UnsafeKind,
};
use harbor::reports::{SafetyReport, Status};
use harbor::scan::{is_valid_dir, safety_infractions};

#[test]
fn test_is_valid_dir() {
    assert!(is_valid_dir(&"src/main.rs"));
    assert!(!is_valid_dir(&"benches/main.rs"));
    assert!(!is_valid_dir(&"examples/main.rs"));
    assert!(!is_valid_dir(&"tests/test.rs"));
    assert!(!is_valid_dir(&"target/test.rs"));
}

#[test]
fn status_from_bool_values() {
    assert_eq!(Status::from_bool(true), Status::passed);
    assert_eq!(Status::from_bool(false), Status::failed);
}

#[test]
fn report_on_empty_set_passes() {
    let report = SafetyReport::new("harbor".to_string(), Status::passed, FindingSet::new());
    assert_eq!(report.status(), Status::passed);
    assert_eq!(report.lib_name().as_str(), "harbor");
    assert!(report.offenses().is_empty());
}

#[test]
fn report_status_follows_the_set() {
    // The constructor computes the status from the set: a claimed `passed`
    // cannot survive a non-empty finding set, nor `failed` an empty one.
    let mut findings = FindingSet::new();
    findings.insert(UnsafeCode::new(
        UnsafeKind::unsafe_block,
        "lib.rs:8:4: 10:5".to_string(),
    ));
    let report = SafetyReport::new("x".to_string(), Status::passed, findings);
    assert_eq!(report.status(), Status::failed);

    let contradicted = SafetyReport::new("y".to_string(), Status::failed, FindingSet::new());
    assert_eq!(contradicted.status(), Status::passed);
}

#[test]
fn report_coherence_mixed_sizes() {
    let kinds = [
        UnsafeKind::unsafe_function,
        UnsafeKind::unsafe_impl,
        UnsafeKind::unsafe_impl_item,
        UnsafeKind::unsafe_block,
        UnsafeKind::unsafe_trait,
        UnsafeKind::unsafe_trait_item,
        UnsafeKind::unsafe_attr,
    ];
    for n in 0..kinds.len() {
        let mut findings = FindingSet::new();
        for (i, kind) in kinds.iter().take(n).enumerate() {
            findings.insert(UnsafeCode::new(*kind, format!("lib.rs:{}:0", i)));
        }
        let report = SafetyReport::new("t".to_string(), Status::passed, findings);
        if n == 0 {
            assert_eq!(report.status(), Status::passed);
        } else {
            assert_eq!(report.status(), Status::failed);
            assert_eq!(report.offenses().len(), n);
        }
    }
}

#[test]
fn scan_target_directory() {
    // The per-target scan filters by the directory convention alone.
    let block = SourceNode::Block {
        safety: Safety::Unsafe,
        loc: "a.rs:2:4: 4:5".to_string(),
        nodes: vec![],
    };
    let units = vec![
        SourceUnit {
            path: "pkg/src/a.rs".to_string(),
            root: SourceNode::Other { nodes: vec![block] },
        },
        SourceUnit {
            path: "pkg/target/gen.rs".to_string(),
            root: SourceNode::Function {
                safety: Safety::Unsafe,
                loc: "gen.rs:1:0: 2:1".to_string(),
                nodes: vec![],
            },
        },
    ];
    let found = safety_infractions(&units);
    assert_eq!(found.len(), 1);
    assert_eq!(found.items()[0].kind(), UnsafeKind::unsafe_block);
}
