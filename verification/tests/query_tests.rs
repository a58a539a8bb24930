use corbel::budget::{estimate_node_tokens, TokenBudget};
use corbel::query::{
    affected_for, find, get_symbol, impact, CallEdge, CalleeInfo, CallerInfo, FindMatch, ImpactResult, SymbolInfo,
    SymbolRecord,
};

fn symbol(name: &str, file: &str, line: u32) -> SymbolInfo {
    SymbolInfo {
        name: name.to_string(),
        file: file.to_string(),
        line,
        kind: "function".to_string(),
        signature: Some(format!("pub fn {name}()")),
        is_public: true,
    }
}

/// `caller` (defined at `line` of `file`) calls `callee` defined in `callee_file`.
fn edge(callee_file: &str, callee: &str, caller: &str, file: &str, line: u32, resolution: &str) -> CallEdge {
    CallEdge {
        callee_file: callee_file.to_string(),
        callee_name: callee.to_string(),
        caller_name: caller.to_string(),
        caller_file: file.to_string(),
        caller_line: line,
        resolution: resolution.to_string(),
        caller_owner: None,
        caller_lang: "rs".to_string(),
    }
}

fn generous() -> TokenBudget {
    TokenBudget::new(8000)
}

fn one(results: Vec<ImpactResult>) -> ImpactResult {
    assert_eq!(results.len(), 1);
    results.into_iter().next().unwrap()
}

#[test]
fn direct_caller_is_captured_at_depth_one() {
    let graph = vec![edge("t.rs", "t", "a", "a.rs", 1, "global-unique")];
    let result = one(impact(&vec![symbol("t", "t.rs", 1)], &graph, generous()));
    assert_eq!(result.target.name, "t");
    assert_eq!(result.affected.len(), 1);
    assert_eq!(result.affected[0].name, "a");
    assert_eq!(result.affected[0].file, "a.rs");
    assert_eq!(result.affected[0].depth, 1);
    assert!(!result.truncated);
    assert_eq!(result.truncated_count, 0);
    assert_eq!(result.max_depth_reached, 1);
}

#[test]
fn multi_level_chain_is_captured_with_increasing_depth() {
    let graph = vec![
        edge("b.rs", "b", "a", "a.rs", 1, "global-unique"),
        edge("t.rs", "t", "b", "b.rs", 1, "global-unique"),
    ];
    let result = one(impact(&vec![symbol("t", "t.rs", 1)], &graph, generous()));
    assert_eq!(result.affected.len(), 2);
    let b = result.affected.iter().find(|n| n.name == "b").unwrap();
    assert_eq!(b.depth, 1);
    let a = result.affected.iter().find(|n| n.name == "a").unwrap();
    assert_eq!(a.depth, 2);
    assert!(!result.truncated);
    assert_eq!(result.max_depth_reached, 2);
}

#[test]
fn cycle_terminates_without_infinite_loop_and_visits_each_symbol_once() {
    let graph = vec![
        edge("t.rs", "t", "a", "a.rs", 1, "global-unique"),
        edge("b.rs", "b", "a", "a.rs", 1, "global-unique"),
        edge("a.rs", "a", "b", "b.rs", 1, "global-unique"),
    ];
    let result = one(impact(&vec![symbol("t", "t.rs", 1)], &graph, generous()));
    assert_eq!(result.affected.len(), 2);
    let names: Vec<&str> = result.affected.iter().map(|n| n.name.as_str()).collect();
    assert_eq!(names.iter().filter(|&&n| n == "a").count(), 1);
    assert_eq!(names.iter().filter(|&&n| n == "b").count(), 1);
    assert_eq!(result.affected.iter().find(|n| n.name == "a").unwrap().depth, 1);
    assert_eq!(result.affected.iter().find(|n| n.name == "b").unwrap().depth, 2);
}

#[test]
fn symbol_reached_via_multiple_paths_keeps_shortest_depth() {
    let graph = vec![
        edge("t.rs", "t", "x", "x.rs", 1, "global-unique"),
        edge("y.rs", "y", "x", "x.rs", 1, "global-unique"),
        edge("t.rs", "t", "y", "y.rs", 1, "global-unique"),
    ];
    let result = one(impact(&vec![symbol("t", "t.rs", 1)], &graph, generous()));
    assert_eq!(result.affected.len(), 2);
    assert_eq!(result.affected.iter().find(|n| n.name == "x").unwrap().depth, 1);
    assert_eq!(result.affected.iter().find(|n| n.name == "y").unwrap().depth, 1);
}

#[test]
fn tight_budget_truncates_and_keeps_closest_nodes() {
    let graph = vec![
        edge("t.rs", "t", "caller_a", "caller_a.rs", 1, "global-unique"),
        edge("t.rs", "t", "caller_b", "caller_b.rs", 1, "global-unique"),
        edge("t.rs", "t", "caller_c", "caller_c.rs", 1, "global-unique"),
    ];
    let tight = estimate_node_tokens("caller_a", "caller_a.rs", 1, "global-unique")
        + estimate_node_tokens("caller_b", "caller_b.rs", 1, "global-unique");
    let result = one(impact(&vec![symbol("t", "t.rs", 1)], &graph, TokenBudget::new(tight)));
    assert!(result.truncated);
    assert_eq!(result.truncated_count, 1);
    assert_eq!(result.affected.len(), 2);
    assert_eq!(result.affected[0].name, "caller_a");
    assert_eq!(result.affected[1].name, "caller_b");
    assert!(result.affected.iter().all(|n| n.depth == 1));
}

#[test]
fn generous_budget_captures_full_graph_without_truncation() {
    let graph = vec![
        edge("b.rs", "b", "a", "a.rs", 1, "global-unique"),
        edge("t.rs", "t", "b", "b.rs", 1, "global-unique"),
    ];
    let result = one(impact(&vec![symbol("t", "t.rs", 1)], &graph, generous()));
    assert!(!result.truncated);
    assert_eq!(result.truncated_count, 0);
    assert_eq!(result.affected.len(), 2);
}

#[test]
fn outgoing_external_call_from_target_is_irrelevant_to_impact() {
    let result = one(impact(&vec![symbol("t", "t.rs", 1)], &Vec::new(), generous()));
    assert!(result.affected.is_empty());
}

#[test]
fn symbol_with_no_callers_has_empty_affected() {
    let result = one(impact(&vec![symbol("lonely", "lonely.rs", 1)], &Vec::new(), generous()));
    assert!(result.affected.is_empty());
    assert!(!result.truncated);
    assert_eq!(result.max_depth_reached, 0);
}

#[test]
fn duplicate_name_across_files_produces_independent_impact_graphs() {
    let graph = vec![
        edge("p.rs", "shared", "call_p", "p.rs", 3, "same-file"),
        edge("q.rs", "shared", "call_q", "q.rs", 3, "same-file"),
    ];
    let targets = vec![symbol("shared", "p.rs", 1), symbol("shared", "q.rs", 1)];
    let results = impact(&targets, &graph, generous());
    assert_eq!(results.len(), 2);
    let p = results.iter().find(|r| r.target.file == "p.rs").unwrap();
    assert_eq!(p.affected.len(), 1);
    assert_eq!(p.affected[0].name, "call_p");
    let q = results.iter().find(|r| r.target.file == "q.rs").unwrap();
    assert_eq!(q.affected.len(), 1);
    assert_eq!(q.affected[0].name, "call_q");
}

#[test]
fn impact_walk_stops_after_the_deepest_level() {
    // A chain f0 <- f1 <- ... <- f12: only the first ten hops are walked.
    let mut graph = Vec::new();
    for i in 0..12 {
        let callee = format!("f{i}");
        let caller = format!("f{}", i + 1);
        graph.push(edge(&format!("{callee}.rs"), &callee, &caller, &format!("{caller}.rs"), 1, "global-unique"));
    }
    let result = one(impact(&vec![symbol("f0", "f0.rs", 1)], &graph, generous()));
    assert_eq!(result.affected.len(), 10);
    assert_eq!(result.max_depth_reached, 10);
    assert_eq!(result.affected[9].name, "f10");
}

#[test]
fn impact_budget_is_spent_by_targets_in_turn() {
    let graph = vec![
        edge("p.rs", "shared", "call_p", "p.rs", 3, "same-file"),
        edge("q.rs", "shared", "call_q", "q.rs", 3, "same-file"),
    ];
    let cost = estimate_node_tokens("call_p", "p.rs", 3, "same-file");
    let targets = vec![symbol("shared", "p.rs", 1), symbol("shared", "q.rs", 1)];
    let results = impact(&targets, &graph, TokenBudget::new(cost));
    assert_eq!(results[0].affected.len(), 1);
    assert!(!results[0].truncated);
    assert!(results[1].affected.is_empty());
    assert!(results[1].truncated);
    assert_eq!(results[1].truncated_count, 1);
}

#[test]
fn affected_for_picks_the_result_of_the_changed_definition() {
    let graph = vec![
        edge("p.rs", "shared", "call_p", "p.rs", 3, "same-file"),
        edge("q.rs", "shared", "call_q", "q.rs", 3, "same-file"),
    ];
    let targets = vec![symbol("shared", "p.rs", 1), symbol("shared", "q.rs", 1)];
    let affected = affected_for(impact(&targets, &graph, generous()), "q.rs", 1);
    assert_eq!(affected.len(), 1);
    assert_eq!(affected[0].name, "call_q");
    assert!(affected_for(impact(&targets, &graph, generous()), "r.rs", 1).is_empty());
}

fn found(name: &str, file: &str, line: u32) -> FindMatch {
    FindMatch {
        name: name.to_string(),
        file: file.to_string(),
        line,
        kind: "function".to_string(),
        signature: None,
        is_public: true,
    }
}

#[test]
fn find_matches_are_case_insensitive_for_ascii() {
    let result = find("widget", &vec![found("Widget", "a.rs", 1)], 20, TokenBudget::new(100_000));
    assert_eq!(result.matches.len(), 1);
    assert_eq!(result.matches[0].name, "Widget");
}

#[test]
fn find_treats_percent_and_underscore_as_literal_characters() {
    let symbols = vec![found("a_b", "a.rs", 1), found("acb", "a.rs", 3)];
    let result = find("a_b", &symbols, 20, TokenBudget::new(100_000));
    let names: Vec<&str> = result.matches.iter().map(|m| m.name.as_str()).collect();
    assert_eq!(names, vec!["a_b"]);
}

#[test]
fn find_ranks_exact_then_prefix_then_substring_matches() {
    let symbols = vec![found("old_widget", "a.rs", 1), found("widget_factory", "a.rs", 3), found("widget", "a.rs", 5)];
    let result = find("widget", &symbols, 20, TokenBudget::new(100_000));
    let names: Vec<&str> = result.matches.iter().map(|m| m.name.as_str()).collect();
    assert_eq!(names, vec!["widget", "widget_factory", "old_widget"]);
}

#[test]
fn find_orders_ties_within_a_rank_by_name_then_file_then_line() {
    let symbols = vec![found("widget_q", "q.rs", 1), found("widget_p", "p.rs", 1)];
    let result = find("widget", &symbols, 20, TokenBudget::new(100_000));
    let files: Vec<&str> = result.matches.iter().map(|m| m.file.as_str()).collect();
    assert_eq!(files, vec!["p.rs", "q.rs"]);
}

#[test]
fn find_truncates_by_limit_and_reports_total_matches() {
    let symbols = vec![found("widget_a", "a.rs", 1), found("widget_b", "a.rs", 3), found("widget_c", "a.rs", 5)];
    let result = find("widget", &symbols, 2, TokenBudget::new(100_000));
    assert_eq!(result.matches.len(), 2);
    assert_eq!(result.total_matches, 3);
    assert!(result.truncated);
    assert_eq!(result.truncated_count, 1);
}

#[test]
fn find_truncates_by_token_budget() {
    let symbols = vec![found("widget_a", "a.rs", 1), found("widget_b", "a.rs", 3)];
    let result = find("widget", &symbols, 20, TokenBudget::new(1));
    assert!(result.matches.is_empty());
    assert_eq!(result.total_matches, 2);
    assert!(result.truncated);
    assert_eq!(result.truncated_count, 2);
}

#[test]
fn find_with_no_matches_returns_empty_result() {
    let result = find("ghost", &vec![found("a", "a.rs", 1)], 20, TokenBudget::new(100_000));
    assert!(result.matches.is_empty());
    assert_eq!(result.total_matches, 0);
    assert!(!result.truncated);
}

#[test]
fn find_with_zero_limit_counts_matches_but_returns_none() {
    let result = find("a", &vec![found("a", "a.rs", 1)], 0, TokenBudget::new(100_000));
    assert!(result.matches.is_empty());
    assert_eq!(result.total_matches, 1);
    assert!(result.truncated);
}

fn caller(name: &str, file: &str, line: u32) -> CallerInfo {
    CallerInfo { name: name.to_string(), file: file.to_string(), line, resolution: "global-unique".to_string() }
}

fn callee(name: &str, file: Option<&str>) -> CalleeInfo {
    CalleeInfo { name: name.to_string(), file: file.map(|f| f.to_string()), resolution: "global-unique".to_string() }
}

fn record(line: u32, callers: Vec<CallerInfo>, callees: Vec<CalleeInfo>) -> SymbolRecord {
    SymbolRecord { symbol: symbol("widget", "overload.rs", line), callers, callees }
}

#[test]
fn duplicate_name_within_same_file_is_narrowed_by_line() {
    let records = vec![record(1, Vec::new(), Vec::new()), record(5, Vec::new(), Vec::new())];
    assert_eq!(get_symbol(&records, None, TokenBudget::new(100_000)).len(), 2);
    let narrowed = get_symbol(&records, Some(5), TokenBudget::new(100_000));
    assert_eq!(narrowed.len(), 1);
    assert_eq!(narrowed[0].symbol.line, 5);
}

#[test]
fn get_symbol_with_ample_budget_keeps_everything() {
    let records = vec![record(1, vec![caller("a", "a.rs", 1)], vec![callee("c", Some("c.rs")), callee("x", None)])];
    let results = get_symbol(&records, None, TokenBudget::new(100_000));
    assert_eq!(results[0].callers.len(), 1);
    assert_eq!(results[0].callees.len(), 2);
    assert!(!results[0].truncated);
    assert_eq!(results[0].truncated_count, 0);
}

#[test]
fn get_symbol_with_tiny_budget_is_truncated() {
    let records = vec![record(1, vec![caller("a", "a.rs", 1)], vec![callee("c", Some("c.rs"))])];
    let results = get_symbol(&records, None, TokenBudget::new(1));
    assert!(results[0].truncated);
    assert_eq!(results[0].truncated_count, 2);
    assert!(results[0].callers.is_empty());
    assert!(results[0].callees.is_empty());
}

#[test]
fn get_symbol_splits_the_budget_between_matches_and_lists() {
    let one_caller = estimate_node_tokens("a", "a.rs", 1, "global-unique");
    // Two matches, each with two callers: a budget of four callers gives each
    // match room for one caller (half of its share).
    let records = vec![
        record(1, vec![caller("a", "a.rs", 1), caller("a", "a.rs", 1)], Vec::new()),
        record(5, vec![caller("a", "a.rs", 1), caller("a", "a.rs", 1)], Vec::new()),
    ];
    let results = get_symbol(&records, None, TokenBudget::new(4 * one_caller));
    for r in &results {
        assert_eq!(r.callers.len(), 1);
        assert_eq!(r.truncated_count, 1);
        assert!(r.truncated);
    }
}

#[test]
fn sort_by_location_orders_by_file_then_line() {
    let sorted = corbel::query::sort_by_location(vec![
        symbol("c", "b.rs", 3),
        symbol("a", "a.rs", 9),
        symbol("b", "b.rs", 1),
        symbol("d", "a.rs", 2),
    ]);
    let order: Vec<(&str, u32)> = sorted.iter().map(|s| (s.file.as_str(), s.line)).collect();
    assert_eq!(order, vec![("a.rs", 2), ("a.rs", 9), ("b.rs", 1), ("b.rs", 3)]);
}
