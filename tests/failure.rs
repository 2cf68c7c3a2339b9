use mass_replace::failure::{ends_run, RunError};

#[test]
fn only_file_access_failures_are_skipped() {
    assert!(ends_run(RunError::Traversal));
    assert!(!ends_run(RunError::FileAccess));
    assert!(ends_run(RunError::Rewrite));
}
