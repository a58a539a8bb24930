use corbel::diff::{
    diff_line_ranges_checked, parse_diff_path, parse_hunk_new_range, parse_since, symbols_touched_by_ranges, SinceError,
};
use corbel::query::SymbolInfo;

#[test]
fn parse_since_accepts_raw_unix_timestamp() {
    assert_eq!(parse_since("1700000000").unwrap(), 1700000000);
}

#[test]
fn parse_since_rejects_unknown_suffix() {
    assert!(parse_since("5x").is_err());
}

#[test]
fn parse_hunk_new_range_reads_start_and_count() {
    assert_eq!(parse_hunk_new_range("-1,2 +3,4 @@"), Some((3, 4)));
    assert_eq!(parse_hunk_new_range("-1 +5 @@"), Some((5, 1)));
}

#[test]
fn parse_diff_path_strips_b_prefix_and_skips_dev_null() {
    assert_eq!(
        parse_diff_path("b/src/lib.rs"),
        Some("src/lib.rs".to_string())
    );
    assert_eq!(parse_diff_path("/dev/null"), None);
}

fn symbol(name: &str, line: u32) -> SymbolInfo {
    SymbolInfo {
        name: name.to_string(),
        file: "a.rs".to_string(),
        line,
        kind: "function".to_string(),
        signature: None,
        is_public: true,
    }
}

#[test]
fn symbols_touched_by_ranges_matches_overlapping_symbol_only() {
    let symbols = vec![symbol("a", 1), symbol("b", 10), symbol("c", 20)];
    let touched = symbols_touched_by_ranges(&symbols, &[(10, 12)]);
    assert_eq!(touched, vec![symbol("b", 10)]);
}

#[test]
fn symbols_touched_by_ranges_covers_last_symbol_to_end_of_file() {
    let symbols = vec![symbol("a", 1), symbol("b", 10)];
    let touched = symbols_touched_by_ranges(&symbols, &[(1000, 1000)]);
    assert_eq!(touched, vec![symbol("b", 10)]);
}

#[test]
fn symbols_touched_by_ranges_sorts_unsorted_input_by_line() {
    let symbols = vec![symbol("c", 20), symbol("a", 1), symbol("b", 10)];
    let touched = symbols_touched_by_ranges(&symbols, &[(10, 12)]);
    assert_eq!(touched, vec![symbol("b", 10)]);
}

#[test]
fn parse_since_refuses_values_that_are_not_durations() {
    assert_eq!(parse_since("5x"), Err(SinceError::UnsupportedSuffix("x".to_string())));
    assert_eq!(parse_since(""), Err(SinceError::NotANumber));
    assert!(parse_since("5é").is_err());
    assert_eq!(parse_since("1700000000"), Ok(1_700_000_000));
}

#[test]
fn checked_diff_ranges_refuse_ranges_past_the_last_line() {
    let ok = diff_line_ranges_checked("+++ b/a.rs\n@@ -1 +3,2 @@\n").unwrap();
    assert_eq!(ok.len(), 1);
    assert_eq!(ok[0].ranges, vec![(3, 4)]);
    assert!(diff_line_ranges_checked("+++ b/a.rs\n@@ -1 +4294967295,2 @@\n").is_none());
}
