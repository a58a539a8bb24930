use corbel::audit::{coverage_for_changed_symbol, AuditEvent};
use corbel::query::ImpactNode;

fn node(name: &str, file: &str, line: u32) -> ImpactNode {
    ImpactNode {
        name: name.to_string(),
        file: file.to_string(),
        line,
        resolution: "same-file".to_string(),
        owner: None,
        lang: "rs".to_string(),
        depth: 1,
    }
}

#[test]
fn coverage_reports_impact_never_called() {
    let affected = vec![node("caller_a", "a.rs", 5)];
    let coverage = coverage_for_changed_symbol("target", "a.rs", 1, &affected, &[]);
    assert!(!coverage.impact_checked);
    assert_eq!(coverage.affected_total, 1);
    assert_eq!(coverage.affected_inspected, 0);
}

#[test]
fn coverage_matches_on_name_and_file_ignoring_line_drift() {
    let affected = vec![node("caller_a", "a.rs", 99)];
    let events = vec![
        AuditEvent::now("impact", "target", "a.rs", 1),
        AuditEvent::now("get_symbol", "caller_a", "a.rs", 5),
    ];
    let coverage = coverage_for_changed_symbol("target", "a.rs", 1, &affected, &events);
    assert!(coverage.impact_checked);
    assert_eq!(coverage.affected_inspected, 1);
    assert!(coverage.uninspected.is_empty());
}

#[test]
fn coverage_lists_uninspected_affected_symbols() {
    let affected = vec![node("caller_a", "a.rs", 5), node("caller_b", "b.rs", 8)];
    let events = vec![
        AuditEvent::now("impact", "target", "a.rs", 1),
        AuditEvent::now("get_symbol", "caller_a", "a.rs", 5),
    ];
    let coverage = coverage_for_changed_symbol("target", "a.rs", 1, &affected, &events);
    assert_eq!(coverage.affected_inspected, 1);
    assert_eq!(
        coverage.uninspected,
        vec![("caller_b".to_string(), "b.rs".to_string(), 8)]
    );
}

#[test]
fn event_at_stamps_the_clock_reading() {
    let e = corbel::audit::AuditEvent::at(Some(1_700_000_000), "impact", "t", "t.rs", 3);
    assert_eq!(e.ts, 1_700_000_000);
    assert_eq!(e.tool, "impact");
    assert_eq!(e.line, 3);
    let before_epoch = corbel::audit::AuditEvent::at(None, "find", "x", "x.rs", 1);
    assert_eq!(before_epoch.ts, 0);
}
