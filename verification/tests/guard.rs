use aff4tools::write::guard::SourceRegistry;

#[test]
fn a_registered_source_cannot_be_written() {
    let mut registry = SourceRegistry::new();
    registry.register("/evidence/evidence.dd");

    assert!(registry.is_source(Some("/evidence/evidence.dd")));
    assert!(registry
        .assert_not_source("/evidence/evidence.dd", Some("/evidence/evidence.dd"))
        .is_err());

    // An equivalent spelling of the same file has the same canonical form.
    let refused = registry.assert_not_source("/evidence/./evidence.dd", Some("/evidence/evidence.dd"));
    assert!(
        refused.is_err(),
        "a different spelling of the same path must still be refused"
    );
    assert!(refused
        .unwrap_err()
        .to_string()
        .starts_with("/evidence/./evidence.dd: refusing to open a write handle"));
}

#[test]
fn an_unregistered_path_is_allowed() {
    let mut registry = SourceRegistry::new();
    registry.register("/evidence/evidence.dd");

    assert!(!registry.is_source(Some("/evidence/case.aff4")));
    assert!(registry
        .assert_not_source("/evidence/case.aff4", Some("/evidence/case.aff4"))
        .is_ok());
    assert!(registry.assert_not_source("/evidence/new.aff4", None).is_ok());
}

#[test]
fn a_source_is_counted_once() {
    let mut registry = SourceRegistry::new();
    assert!(registry.is_empty());
    registry.register("/a");
    registry.register("/a");
    assert_eq!(registry.len(), 1);
    assert!(!registry.is_source(None));
}
