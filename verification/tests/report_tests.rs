use corbel::audit::{AuditEvent, SymbolCoverage};
use corbel::diff::FileRanges;
use corbel::index::{file_unchanged, relationships_for, vanished_paths, StoredSymbol};
use corbel::report::{count_unchecked, events_since, summary_line, without_stale};
use corbel::symbol::Reference;

fn event(ts: i64) -> AuditEvent {
    AuditEvent { ts, tool: "impact".to_string(), name: "a".to_string(), file: "a.rs".to_string(), line: 1 }
}

#[test]
fn events_since_keeps_events_at_or_after_the_cutoff() {
    let kept = events_since(vec![event(5), event(10), event(20)], 10);
    assert_eq!(kept, vec![event(10), event(20)]);
}

#[test]
fn summary_line_pluralizes() {
    assert_eq!(summary_line(1, 1, 0), "1 query recorded, 1 symbol changed, 0 unchecked");
    assert_eq!(summary_line(3, 2, 1), "3 queries recorded, 2 symbols changed, 1 unchecked");
}

#[test]
fn unchecked_symbols_are_counted() {
    let coverage = |checked: bool| SymbolCoverage {
        name: "a".to_string(),
        file: "a.rs".to_string(),
        line: 1,
        impact_checked: checked,
        affected_total: 0,
        affected_inspected: 0,
        uninspected: vec![],
    };
    assert_eq!(count_unchecked(&vec![coverage(true), coverage(false), coverage(false)]), 2);
}

#[test]
fn stale_files_are_dropped_from_the_analysis() {
    let files = vec![
        FileRanges { file: "a.rs".to_string(), ranges: vec![(1, 2)] },
        FileRanges { file: "b.rs".to_string(), ranges: vec![(3, 4)] },
    ];
    let kept = without_stale(files, &vec!["a.rs".to_string()]);
    assert_eq!(kept.len(), 1);
    assert_eq!(kept[0].file, "b.rs");
}

#[test]
fn references_without_a_caller_in_the_file_are_skipped() {
    let symbols = vec![
        StoredSymbol { id: 7, name: "main".to_string(), line: 1 },
        StoredSymbol { id: 8, name: "main".to_string(), line: 10 },
    ];
    let references = vec![
        Reference { callee_name: "helper".to_string(), line: 12, caller_name: Some("main".to_string()) },
        Reference { callee_name: "other".to_string(), line: 3, caller_name: Some("ghost".to_string()) },
        Reference { callee_name: "top".to_string(), line: 2, caller_name: None },
    ];
    let (rels, skipped) = relationships_for(&symbols, &references);
    assert_eq!(rels, vec![(8, "helper".to_string())]);
    assert_eq!(skipped, 2);
}

#[test]
fn unchanged_files_are_detected_by_hash() {
    assert!(file_unchanged(&Some("abc".to_string()), "abc"));
    assert!(!file_unchanged(&Some("abc".to_string()), "abd"));
    assert!(!file_unchanged(&None, "abc"));
}

#[test]
fn vanished_paths_are_those_not_walked() {
    let existing = vec!["a.rs".to_string(), "b.rs".to_string(), "c.rs".to_string()];
    let seen = vec!["b.rs".to_string()];
    assert_eq!(vanished_paths(&existing, &seen), vec!["a.rs".to_string(), "c.rs".to_string()]);
}
