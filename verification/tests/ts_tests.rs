use corbel::lang::ts::{match_positions, parse_source, query_source, record_nodes, Grammar, TsNode};

fn node(kind: &str, start: usize, end: usize, parent: Option<usize>) -> TsNode {
    TsNode {
        kind: kind.to_string(),
        field: None,
        named: true,
        start_byte: start,
        end_byte: end,
        start_row: 0,
        parent,
    }
}

#[test]
fn recorded_nodes_get_character_ranges_and_children() {
    // "é" takes two bytes, so byte 3 is character 2.
    let src = "éab";
    let nodes = vec![node("root", 0, 4, None), node("x", 0, 2, Some(0)), node("y", 2, 4, Some(0)), node("z", 3, 4, Some(2))];
    let st = record_nodes(&nodes, src);
    let t = &st.tree.nodes;
    assert_eq!(t.len(), 4);
    assert_eq!(t[0].children, vec![1, 2]);
    assert_eq!(t[2].children, vec![3]);
    assert_eq!(t[3].parent, Some(2));
    assert_eq!((t[1].start_char, t[1].end_char), (0, 1));
    assert_eq!((t[2].start_char, t[2].end_char), (1, 3));
    assert_eq!((t[3].start_char, t[3].end_char), (2, 3));
    assert_eq!(t[3].id, 3);
}

#[test]
fn captured_ids_become_preorder_positions() {
    let ids = vec![70, 10, 55];
    let ms = vec![vec![(0, 55), (1, 70)], vec![(2, 10)]];
    assert_eq!(match_positions(&ids, &ms), vec![vec![(0, 2), (1, 0)], vec![(2, 1)]]);
}

#[test]
fn a_parse_records_the_whole_text() {
    let st = parse_source(Grammar::Python, "x = 1\n");
    assert_eq!(st.src.iter().collect::<String>(), "x = 1\n");
    assert_eq!(st.tree.nodes[0].kind, "module");
    assert_eq!(st.tree.nodes[0].parent, None);
    assert!(st.tree.nodes.len() > 1);
}

#[test]
fn a_query_that_does_not_compile_gives_nothing() {
    assert!(query_source(Grammar::Rust, "fn a() {}", "(no_such_node) @x", &vec!["x"]).is_none());
    assert!(query_source(Grammar::Rust, "fn a() {}", "(function_item) @f", &vec!["g"]).is_none());
    let (st, ms, ix) = query_source(Grammar::Rust, "fn a() {}", "(function_item) @f", &vec!["f"]).unwrap();
    assert_eq!(ix, vec![0]);
    assert_eq!(ms.len(), 1);
    assert_eq!(st.tree.nodes[ms[0][0].1].kind, "function_item");
}
