use corbel::index::{FileOutcome, IndexStats};
use corbel::walk::{SkipReason, SkippedFile};

#[test]
fn a_run_over_unchanged_files_indexes_nothing() {
    let mut stats = IndexStats::start(Vec::new());
    for _ in 0..3 {
        stats.count(FileOutcome::Unchanged);
    }
    assert_eq!(stats.files_skipped_unchanged, 3);
    assert_eq!(stats.files_indexed, 0);
    assert_eq!(stats.symbols_stored, 0);
    assert_eq!(stats.relationships_stored, 0);
}

#[test]
fn indexed_files_add_up_what_was_stored() {
    let mut stats = IndexStats::start(Vec::new());
    stats.count(FileOutcome::Indexed { symbols: 2, imports: 1, relationships: 3, without_caller: 1 });
    stats.count(FileOutcome::Unchanged);
    stats.count(FileOutcome::Indexed { symbols: 4, imports: 0, relationships: 1, without_caller: 0 });
    assert_eq!(stats.files_indexed, 2);
    assert_eq!(stats.files_skipped_unchanged, 1);
    assert_eq!(stats.symbols_stored, 6);
    assert_eq!(stats.imports_stored, 1);
    assert_eq!(stats.relationships_stored, 4);
    assert_eq!(stats.references_skipped_no_caller, 1);
}

#[test]
fn skipped_files_are_listed_after_the_walk_entries() {
    let walk_entry = SkippedFile { path: Some("a.rs".to_string()), reason: SkipReason::Symlink };
    let mut stats = IndexStats::start(vec![walk_entry.clone()]);
    let unreadable = SkippedFile { path: Some("b.rs".to_string()), reason: SkipReason::NotUtf8 };
    stats.count(FileOutcome::Skipped(unreadable.clone()));
    assert_eq!(stats.skipped, vec![walk_entry, unreadable]);
    assert_eq!(stats.files_indexed, 0);
}

#[test]
fn a_counter_at_its_limit_takes_no_more() {
    let mut stats = IndexStats::start(Vec::new());
    stats.files_skipped_unchanged = usize::MAX;
    assert!(!stats.can_count(&FileOutcome::Unchanged));
    assert!(stats.can_count(&FileOutcome::Indexed { symbols: 1, imports: 0, relationships: 0, without_caller: 0 }));
}
