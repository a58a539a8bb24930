use vstd::prelude::*;

use crate::lang::syntax::{tree_wf, SyntaxNode, SyntaxTree};
use crate::text::{chars_of, string_opt};
use tree_sitter::StreamingIterator;

verus! {

#[verifier::external_type_specification]
#[verifier::external_body]
pub struct ExTree(tree_sitter::Tree);

#[verifier::external_type_specification]
#[verifier::external_body]
pub struct ExLanguage(tree_sitter::Language);

#[verifier::external_type_specification]
#[verifier::external_body]
pub struct ExQuery(tree_sitter::Query);

#[verifier::external_type_specification]
#[verifier::external_body]
pub struct ExTreeCursor<'a>(tree_sitter::TreeCursor<'a>);

/// The grammars the library parses with.
#[derive(Debug, Clone, Copy, PartialEq, Eq)]
pub enum Grammar {
    Rust,
    Python,
    TypeScript,
    Tsx,
    JavaScript,
}

/// `tree_sitter_rust::LANGUAGE`, as a `tree_sitter::Language`.
#[verifier::external_body]
fn rust_language() -> tree_sitter::Language {
    tree_sitter_rust::LANGUAGE.into()
}

/// `tree_sitter_python::LANGUAGE`, as a `tree_sitter::Language`.
#[verifier::external_body]
fn python_language() -> tree_sitter::Language {
    tree_sitter_python::LANGUAGE.into()
}

/// `tree_sitter_typescript::LANGUAGE_TYPESCRIPT`, as a `tree_sitter::Language`.
#[verifier::external_body]
fn typescript_language() -> tree_sitter::Language {
    tree_sitter_typescript::LANGUAGE_TYPESCRIPT.into()
}

/// `tree_sitter_typescript::LANGUAGE_TSX`, as a `tree_sitter::Language`.
#[verifier::external_body]
fn tsx_language() -> tree_sitter::Language {
    tree_sitter_typescript::LANGUAGE_TSX.into()
}

/// `tree_sitter_javascript::LANGUAGE`, as a `tree_sitter::Language`.
#[verifier::external_body]
fn javascript_language() -> tree_sitter::Language {
    tree_sitter_javascript::LANGUAGE.into()
}

/// The tree-sitter language of a grammar.
pub fn language_of(grammar: Grammar) -> tree_sitter::Language {
    match grammar {
        Grammar::Rust => rust_language(),
        Grammar::Python => python_language(),
        Grammar::TypeScript => typescript_language(),
        Grammar::Tsx => tsx_language(),
        Grammar::JavaScript => javascript_language(),
    }
}

/// One node of a tree-sitter syntax tree as plain values: its kind, the field
/// it fills in its parent, whether it is named, its byte range, the row it
/// starts on and the preorder position of its parent.
#[derive(Debug)]
pub struct TsNode {
    pub kind: String,
    pub field: Option<String>,
    pub named: bool,
    pub start_byte: usize,
    pub end_byte: usize,
    pub start_row: usize,
    pub parent: Option<usize>,
}

/// A `TsNode` with its strings as character sequences.
pub struct TsNodeView {
    pub kind: Seq<char>,
    pub field: Option<Seq<char>>,
    pub named: bool,
    pub start_byte: usize,
    pub end_byte: usize,
    pub start_row: usize,
    pub parent: Option<usize>,
}

impl View for TsNode {
    type V = TsNodeView;

    open spec fn view(&self) -> TsNodeView {
        TsNodeView {
            kind: self.kind@,
            field: string_opt(self.field),
            named: self.named,
            start_byte: self.start_byte,
            end_byte: self.end_byte,
            start_row: self.start_row,
            parent: self.parent,
        }
    }
}

/// The views of a list of nodes.
pub open spec fn nodes_view(v: Seq<TsNode>) -> Seq<TsNodeView> {
    v.map_values(|n: TsNode| n@)
}

/// The captures of each match.
pub open spec fn matches_view(ms: Seq<Vec<(u32, usize)>>) -> Seq<Seq<(u32, usize)>> {
    ms.map_values(|m: Vec<(u32, usize)>| m@)
}

/// The nodes of the syntax tree that tree-sitter's `Parser::parse` builds for
/// `text` with the language of `grammar`, in preorder: the root first, each
/// node before its children, the children of a node in order.
pub uninterp spec fn ts_syntax_nodes(grammar: Grammar, text: Seq<char>) -> Seq<TsNodeView>;

/// Whether `Query::new` compiles `query` for the language of `grammar`.
pub uninterp spec fn ts_query_compiles(grammar: Grammar, query: Seq<char>) -> bool;

/// What `Query::capture_index_for_name` gives for `name` in `query`, compiled
/// for the language of `grammar`.
pub uninterp spec fn ts_capture_index(grammar: Grammar, query: Seq<char>, name: Seq<char>) -> Option<u32>;

/// The matches `QueryCursor::matches` reports for `query` over the whole tree
/// of `text` (see `ts_syntax_nodes`): each match as its captures in order, each
/// capture as its index and the preorder position of the captured node.
pub uninterp spec fn ts_query_matches(grammar: Grammar, query: Seq<char>, text: Seq<char>) -> Seq<Seq<(u32, usize)>>;

/// A node list in preorder: it starts with the root, and every parent comes
/// before its children.
pub open spec fn preorder_shaped(ns: Seq<TsNodeView>) -> bool {
    &&& ns.len() > 0
    &&& ns[0].parent is None
    &&& forall|i: int| 0 <= i < ns.len() ==> ((#[trigger] ns[i]).parent matches Some(p) ==> p < i)
}

/// No two of `ids` are equal.
pub open spec fn ids_distinct(ids: Seq<usize>) -> bool {
    forall|i: int, j: int| 0 <= i < j < ids.len() ==> ids[i] != ids[j]
}

/// The first position among the first `k` of `ids` that holds `id`.
pub open spec fn first_position(ids: Seq<usize>, id: usize, k: int) -> Option<int>
    decreases k,
{
    if k <= 0 {
        None
    } else {
        match first_position(ids, id, k - 1) {
            Some(p) => Some(p),
            None => if ids[k - 1] == id {
                Some(k - 1)
            } else {
                None
            },
        }
    }
}

/// The position of `id` in `ids`; the length of `ids` where it is absent.
pub open spec fn position_of(ids: Seq<usize>, id: usize) -> usize {
    match first_position(ids, id, ids.len() as int) {
        Some(p) => p as usize,
        None => ids.len() as usize,
    }
}

/// The matches `ms` with each captured node id replaced by its position in
/// `ids`.
pub open spec fn positions(ids: Seq<usize>, ms: Seq<Seq<(u32, usize)>>) -> Seq<Seq<(u32, usize)>> {
    ms.map_values(|m: Seq<(u32, usize)>| m.map_values(|c: (u32, usize)| (c.0, position_of(ids, c.1))))
}

/// Each of `names` is a capture of `query`.
pub open spec fn names_captured(grammar: Grammar, query: Seq<char>, names: Seq<&str>) -> bool {
    forall|k: int| 0 <= k < names.len() ==> (#[trigger] ts_capture_index(grammar, query, names[k]@)) is Some
}

/// A parse with a query run over it: the tree's nodes in preorder with their
/// tree-sitter ids, the matches with captured nodes by id, and the capture
/// index of each asked name.
pub struct QueryRun {
    pub nodes: Vec<TsNode>,
    pub ids: Vec<usize>,
    pub matches: Vec<Vec<(u32, usize)>>,
    pub indices: Vec<u32>,
}

/// `Parser::new`, `Parser::set_language` with the language of `grammar`, and
/// `Parser::parse` of `src` with no old tree; used by the two wrappers below.
#[verifier::external_body]
fn parse_raw(grammar: Grammar, src: &str) -> Option<tree_sitter::Tree> {
    let mut parser = tree_sitter::Parser::new();
    parser.set_language(&language_of(grammar)).ok()?;
    parser.parse(src, None)
}

/// The node under `cursor` as a `TsNode` with the given parent position.
#[verifier::external_body]
fn cursor_node(cursor: &tree_sitter::TreeCursor, parent: Option<usize>) -> TsNode {
    let node = cursor.node();
    TsNode {
        kind: node.kind().to_string(),
        field: cursor.field_name().map(String::from),
        named: node.is_named(),
        start_byte: node.start_byte(),
        end_byte: node.end_byte(),
        start_row: node.start_position().row,
        parent,
    }
}

/// The nodes of `tree` in preorder, walked with a `TreeCursor`, each with its
/// `Node::id` beside it; used by the two wrappers below.
#[verifier::external_body]
fn tree_nodes(tree: &tree_sitter::Tree) -> (Vec<TsNode>, Vec<usize>) {
    let (mut nodes, mut ids, mut parents) = (Vec::new(), Vec::new(), Vec::<usize>::new());
    let mut cursor = tree.walk();
    loop {
        nodes.push(cursor_node(&cursor, parents.last().copied()));
        ids.push(cursor.node().id());
        if cursor.goto_first_child() {
            parents.push(nodes.len() - 1);
        } else {
            while !cursor.goto_next_sibling() {
                if !cursor.goto_parent() { return (nodes, ids); }
                parents.pop();
            }
        }
    }
}

/// Runs `query` over the whole of `tree` with `QueryCursor::matches` and lists
/// each match as its captures (capture index, `Node::id` of the captured node);
/// used by `parse_and_query`.
#[verifier::external_body]
fn captured_ids(query: &tree_sitter::Query, tree: &tree_sitter::Tree, src: &str) -> Vec<Vec<(u32, usize)>> {
    let mut cursor = tree_sitter::QueryCursor::new();
    let mut matches = cursor.matches(query, tree.root_node(), src.as_bytes());
    let mut out = Vec::new();
    while let Some(m) = matches.next() {
        out.push(m.captures().iter().map(|c| (c.index, c.node.id())).collect());
    }
    out
}

/// Parses `src` with the language of `grammar` and lists the tree's nodes in
/// preorder as `ts_syntax_nodes` names them, each with its `Node::id`. The
/// contract claims that a tree always comes back: `set_language` accepts the
/// five built-in languages (their ABI versions lie in the range tree-sitter
/// accepts) and `parse` returns a tree once a language is set, as no timeout
/// or cancellation flag is set here. It claims what the listing code shows:
/// the root comes first, parents before their children; and what `Node::id`
/// documents: no two nodes of one tree share an id.
#[verifier::external_body]
fn parse_syntax(grammar: Grammar, src: &str) -> (r: Option<(Vec<TsNode>, Vec<usize>)>)
    ensures
        (match r {
            Some(p) => nodes_view(p.0@) == ts_syntax_nodes(grammar, src@) && preorder_shaped(nodes_view(p.0@)) && p.1@.len()
                == p.0@.len() && ids_distinct(p.1@),
            None => false,
        }),
{
    parse_raw(grammar, src).map(|tree| tree_nodes(&tree))
}

/// Parses `src` as `parse_syntax` does, compiles `query` for the language of
/// `grammar` (`Query::new`), looks up the index of each of `names`
/// (`Query::capture_index_for_name`) and runs the query over the tree
/// (`QueryCursor::matches`). `None` exactly where the query does not compile
/// or one of `names` is none of its captures; otherwise the tree's nodes, the
/// matches with each captured node by id (mapped to preorder positions they
/// are `ts_query_matches`) and the indices of `names`.
#[verifier::external_body]
fn parse_and_query(grammar: Grammar, src: &str, query: &str, names: &Vec<&str>) -> (r: Option<QueryRun>)
    ensures
        (r is Some) == (ts_query_compiles(grammar, query@) && names_captured(grammar, query@, names@)),
        (match r {
            None => true,
            Some(run) => {
            &&& nodes_view(run.nodes@) == ts_syntax_nodes(grammar, src@)
            &&& preorder_shaped(nodes_view(run.nodes@))
            &&& run.ids@.len() == run.nodes@.len()
            &&& ids_distinct(run.ids@)
            &&& positions(run.ids@, matches_view(run.matches@)) == ts_query_matches(grammar, query@, src@)
            &&& run.indices@.len() == names@.len()
            &&& forall|k: int|
                0 <= k < names@.len() ==> ts_capture_index(grammar, query@, names@[k]@) == Some(#[trigger] run.indices@[k])
            },
        }),
{
    let tree = parse_raw(grammar, src)?;
    let compiled = tree_sitter::Query::new(&language_of(grammar), query).ok()?;
    let indices = names.iter().map(|n| compiled.capture_index_for_name(n)).collect::<Option<Vec<u32>>>()?;
    let (nodes, ids) = tree_nodes(&tree);
    let matches = captured_ids(&compiled, &tree, src);
    Some(QueryRun { nodes, ids, matches, indices })
}

/// The number of UTF-8 bytes of `c`.
pub open spec fn utf8_len(c: char) -> nat {
    if c <= '\u{7f}' {
        1
    } else if c <= '\u{7ff}' {
        2
    } else if c <= '\u{ffff}' {
        3
    } else {
        4
    }
}

/// For each byte of `cs` encoded as UTF-8, the index of the character that
/// byte belongs to.
pub open spec fn byte_table(cs: Seq<char>) -> Seq<usize>
    decreases cs.len(),
{
    if cs.len() == 0 {
        Seq::empty()
    } else {
        let k = cs.len() - 1;
        byte_table(cs.take(k)) + Seq::new(utf8_len(cs[k]), |_b: int| k as usize)
    }
}

/// The character that byte `b` of `cs` encoded as UTF-8 belongs to; the end of
/// the text for a byte past it.
pub open spec fn char_at_byte(cs: Seq<char>, b: usize) -> usize {
    if b < byte_table(cs).len() {
        byte_table(cs)[b as int]
    } else {
        cs.len() as usize
    }
}

/// `byte_table` of `cs`.
fn byte_to_char_table(cs: &[char]) -> (table: Vec<usize>)
    ensures
        table@ == byte_table(cs@),
        forall|b: int| 0 <= b < table@.len() ==> #[trigger] table@[b] < cs@.len(),
{
    let mut table: Vec<usize> = Vec::new();
    let mut j: usize = 0;
    while j < cs.len()
        invariant
            j <= cs@.len(),
            table@ == byte_table(cs@.take(j as int)),
            forall|b: int| 0 <= b < table@.len() ==> #[trigger] table@[b] < cs@.len(),
        decreases cs@.len() - j,
    {
        let c = cs[j];
        let n: usize = if c <= '\u{7f}' {
            1
        } else if c <= '\u{7ff}' {
            2
        } else if c <= '\u{ffff}' {
            3
        } else {
            4
        };
        let ghost before = table@;
        let mut k: usize = 0;
        while k < n
            invariant
                j < cs@.len(),
                k <= n,
                n == utf8_len(cs@[j as int]),
                table@ == before + Seq::new(k as nat, |_b: int| j),
                forall|b: int| 0 <= b < table@.len() ==> #[trigger] table@[b] < cs@.len(),
            decreases n - k,
        {
            table.push(j);
            proof {
                assert(table@ =~= before + Seq::new((k + 1) as nat, |_b: int| j));
            }
            k = k + 1;
        }
        proof {
            let next = cs@.take(j + 1);
            assert(next.take(j as int) =~= cs@.take(j as int));
            assert(next[j as int] == cs@[j as int]);
            assert(byte_table(next) == byte_table(next.take(j as int)) + Seq::new(utf8_len(next[j as int]), |_b: int| j));
        }
        j = j + 1;
    }
    assert(cs@.take(cs@.len() as int) =~= cs@);
    table
}

/// The character offset of byte offset `b`, clamped to the end of the text.
fn char_offset(table: &Vec<usize>, b: usize, len: usize) -> (c: usize)
    requires
        forall|k: int| 0 <= k < table@.len() ==> #[trigger] table@[k] <= len,
    ensures
        c == (if b < table@.len() {
            table@[b as int]
        } else {
            len
        }),
        c <= len,
{
    if b < table.len() {
        table[b]
    } else {
        len
    }
}

/// A source text as characters together with its recorded syntax tree.
pub struct SourceTree {
    pub src: Vec<char>,
    pub tree: SyntaxTree,
}

/// The shape every recorded source keeps.
pub open spec fn source_wf(s: SourceTree) -> bool {
    tree_wf(s.tree, s.src@.len()) && s.tree.nodes@.len() > 0
}

/// Node `i` is the parent of `n`.
pub open spec fn is_parent(n: TsNodeView, i: int) -> bool {
    match n.parent {
        Some(p) => p == i,
        None => false,
    }
}

/// The children of node `i` among the first `m` nodes: those whose parent is
/// `i`, in order.
pub open spec fn kids_of(ns: Seq<TsNodeView>, i: int, m: int) -> Seq<usize>
    decreases m,
{
    if m <= 0 {
        Seq::empty()
    } else if is_parent(ns[m - 1], i) {
        kids_of(ns, i, m - 1).push((m - 1) as usize)
    } else {
        kids_of(ns, i, m - 1)
    }
}

/// `n` records node `i` of `ns`, the nodes of a tree of `src`: its position as
/// its id, its kind, field, named flag and row, its byte range as characters,
/// its parent, and its children found among the first `m` nodes.
pub open spec fn node_recorded_among(n: SyntaxNode, ns: Seq<TsNodeView>, i: int, src: Seq<char>, m: int) -> bool {
    let v = ns[i];
    let start = char_at_byte(src, v.start_byte);
    let end = char_at_byte(src, v.end_byte);
    &&& n.id == i
    &&& n.kind@ == v.kind
    &&& string_opt(n.field) == v.field
    &&& n.named == v.named
    &&& n.start_char == start
    &&& n.end_char == (if end < start {
        start
    } else {
        end
    })
    &&& n.start_row == v.start_row
    &&& n.parent == v.parent
    &&& n.children@ == kids_of(ns, i, m)
}

/// `st` is the source `src` with its tree recorded from `ns`, the tree's
/// nodes in preorder: node `i` of `st` records node `i` of `ns`.
pub open spec fn recorded_from(st: SourceTree, ns: Seq<TsNodeView>, src: Seq<char>) -> bool {
    &&& st.src@ == src
    &&& st.tree.nodes@.len() == ns.len()
    &&& forall|i: int| 0 <= i < ns.len() ==> node_recorded_among(#[trigger] st.tree.nodes@[i], ns, i, src, ns.len() as int)
}

/// A recording is fixed by the nodes it records: two sources recorded from
/// the same nodes of the same text agree on the text and, node for node, on
/// id, kind, field, named flag, character range, row, parent and children.
pub proof fn lemma_recording_unique(st1: SourceTree, st2: SourceTree, ns: Seq<TsNodeView>, src: Seq<char>)
    requires
        recorded_from(st1, ns, src),
        recorded_from(st2, ns, src),
    ensures
        st1.src@ == st2.src@,
        st1.tree.nodes@.len() == st2.tree.nodes@.len(),
        forall|i: int|
            0 <= i < st1.tree.nodes@.len() ==> {
                let (a, b) = (#[trigger] st1.tree.nodes@[i], st2.tree.nodes@[i]);
                &&& a.id == b.id
                &&& a.kind@ == b.kind@
                &&& string_opt(a.field) == string_opt(b.field)
                &&& a.named == b.named
                &&& a.start_char == b.start_char
                &&& a.end_char == b.end_char
                &&& a.start_row == b.start_row
                &&& a.parent == b.parent
                &&& a.children@ == b.children@
            },
{
    assert forall|i: int| 0 <= i < st1.tree.nodes@.len() implies {
        let (a, b) = (#[trigger] st1.tree.nodes@[i], st2.tree.nodes@[i]);
        &&& a.id == b.id
        &&& a.kind@ == b.kind@
        &&& string_opt(a.field) == string_opt(b.field)
        &&& a.named == b.named
        &&& a.start_char == b.start_char
        &&& a.end_char == b.end_char
        &&& a.start_row == b.start_row
        &&& a.parent == b.parent
        &&& a.children@ == b.children@
    } by {
        assert(node_recorded_among(st1.tree.nodes@[i], ns, i, src, ns.len() as int));
        assert(node_recorded_among(st2.tree.nodes@[i], ns, i, src, ns.len() as int));
    }
}

proof fn lemma_kids_range(ns: Seq<TsNodeView>, i: int, m: int)
    requires
        preorder_shaped(ns),
        0 <= m <= ns.len() <= usize::MAX,
    ensures
        forall|k: int| 0 <= k < kids_of(ns, i, m).len() ==> i < #[trigger] kids_of(ns, i, m)[k] < m,
    decreases m,
{
    if m > 0 {
        lemma_kids_range(ns, i, m - 1);
        assert(ns[m - 1].parent matches Some(p) ==> p < m - 1);
        if is_parent(ns[m - 1], i) {
            let prev = kids_of(ns, i, m - 1);
            assert(kids_of(ns, i, m) == prev.push((m - 1) as usize));
            assert forall|k: int| 0 <= k < kids_of(ns, i, m).len() implies i < #[trigger] kids_of(ns, i, m)[k] < m by {
                if k < prev.len() {
                    assert(kids_of(ns, i, m)[k] == prev[k]);
                }
            }
        } else {
            assert(kids_of(ns, i, m) == kids_of(ns, i, m - 1));
        }
    }
}

proof fn lemma_kids_none_yet(ns: Seq<TsNodeView>, i: int, m: int)
    requires
        preorder_shaped(ns),
        0 <= m <= i + 1,
        i < ns.len(),
    ensures
        kids_of(ns, i, m).len() == 0,
    decreases m,
{
    if m > 0 {
        lemma_kids_none_yet(ns, i, m - 1);
        assert(ns[m - 1].parent matches Some(p) ==> p < m - 1);
        assert(!is_parent(ns[m - 1], i));
    }
}

/// Records the nodes `ns` of a tree of `src`, listed in preorder, as the
/// source's syntax tree: byte ranges become character ranges, each node gets
/// its position as id and learns its children.
pub fn record_nodes(ns: &Vec<TsNode>, src: &str) -> (st: SourceTree)
    requires
        preorder_shaped(nodes_view(ns@)),
    ensures
        recorded_from(st, nodes_view(ns@), src@),
        source_wf(st),
{
    let cs = chars_of(src);
    let len = cs.len();
    let table = byte_to_char_table(cs.as_slice());
    let ghost vs = nodes_view(ns@);
    let mut nodes: Vec<SyntaxNode> = Vec::new();
    let mut i: usize = 0;
    while i < ns.len()
        invariant
            i <= ns@.len(),
            vs == nodes_view(ns@),
            preorder_shaped(vs),
            len == cs@.len(),
            cs@ == src@,
            table@ == byte_table(cs@),
            forall|b: int| 0 <= b < table@.len() ==> #[trigger] table@[b] < len,
            nodes@.len() == i,
            forall|j: int| 0 <= j < i ==> node_recorded_among(#[trigger] nodes@[j], vs, j, src@, i as int),
        decreases ns@.len() - i,
    {
        let n = &ns[i];
        assert(vs[i as int] == n@);
        let start = char_offset(&table, n.start_byte, len);
        let end0 = char_offset(&table, n.end_byte, len);
        let end = if end0 < start {
            start
        } else {
            end0
        };
        let field = match &n.field {
            Some(f) => Some(f.clone()),
            None => None,
        };
        let rec = SyntaxNode {
            id: i,
            kind: n.kind.clone(),
            field,
            named: n.named,
            start_char: start,
            end_char: end,
            start_row: n.start_row,
            parent: n.parent,
            children: Vec::new(),
        };
        let ghost before = nodes@;
        nodes.push(rec);
        proof {
            lemma_kids_none_yet(vs, i as int, i as int);
        }
        let ghost pushed = nodes@;
        match n.parent {
            Some(p) => {
                assert(p < i);
                nodes[p].children.push(i);
                assert(nodes@[p as int].children@ == pushed[p as int].children@.push(i));
                assert(forall|k: int| 0 <= k < nodes@.len() && k != p ==> nodes@[k] == pushed[k]);
            },
            None => {
                assert(nodes@ == pushed);
            },
        }
        proof {
            assert(vs[i as int].parent matches Some(q) ==> q < i);
            assert(pushed[i as int] == rec);
            assert(!is_parent(vs[i as int], i as int));
            assert(kids_of(vs, i as int, i + 1) == kids_of(vs, i as int, i as int));
            assert forall|j: int| 0 <= j <= i implies node_recorded_among(#[trigger] nodes@[j], vs, j, src@, i + 1) by {
                if j == i {
                    assert(nodes@[j] == pushed[j]);
                    assert(kids_of(vs, j, i as int).len() == 0);
                    assert(nodes@[j].children@ == kids_of(vs, j, i + 1));
                } else {
                    assert(pushed[j] == before[j]);
                    assert(node_recorded_among(before[j], vs, j, src@, i as int));
                    if is_parent(vs[i as int], j) {
                        assert(n.parent == Some(j as usize));
                        assert(nodes@[j].children@ == before[j].children@.push(i));
                        assert(kids_of(vs, j, i + 1) == kids_of(vs, j, i as int).push(i));
                    } else {
                        assert(nodes@[j] == before[j]);
                        assert(kids_of(vs, j, i + 1) == kids_of(vs, j, i as int));
                    }
                }
            }
        }
        i = i + 1;
    }
    let st = SourceTree { src: cs, tree: SyntaxTree { nodes } };
    proof {
        assert forall|i: int| 0 <= i < st.tree.nodes@.len() implies {
            &&& (#[trigger] st.tree.nodes@[i]).parent matches Some(p) ==> p < i
            &&& forall|k: int|
                0 <= k < st.tree.nodes@[i].children@.len() ==> i < #[trigger] st.tree.nodes@[i].children@[k] < st.tree.nodes@.len()
            &&& st.tree.nodes@[i].start_char <= st.tree.nodes@[i].end_char <= st.src@.len()
        } by {
            assert(node_recorded_among(st.tree.nodes@[i], vs, i, src@, vs.len() as int));
            assert(vs[i] == ns@[i]@);
            lemma_kids_range(vs, i, vs.len() as int);
        }
    }
    st
}

/// The position of `id` in `ids`.
fn position_in(ids: &Vec<usize>, id: usize) -> (p: usize)
    ensures
        p == position_of(ids@, id),
{
    let mut k: usize = 0;
    while k < ids.len()
        invariant
            k <= ids@.len(),
            first_position(ids@, id, k as int) is None,
        decreases ids@.len() - k,
    {
        if ids[k] == id {
            proof {
                lemma_first_position_stable(ids@, id, k + 1, ids@.len() as int);
            }
            return k;
        }
        k = k + 1;
    }
    k
}

proof fn lemma_first_position_stable(ids: Seq<usize>, id: usize, k: int, m: int)
    requires
        0 <= k <= m,
        first_position(ids, id, k) is Some,
    ensures
        first_position(ids, id, m) == first_position(ids, id, k),
    decreases m - k,
{
    if m > k {
        lemma_first_position_stable(ids, id, k, m - 1);
    }
}

/// The matches `ms` with each captured node id replaced by its position in
/// `ids` (see `positions`).
pub fn match_positions(ids: &Vec<usize>, ms: &Vec<Vec<(u32, usize)>>) -> (out: Vec<Vec<(u32, usize)>>)
    ensures
        matches_view(out@) == positions(ids@, matches_view(ms@)),
{
    let ghost want = positions(ids@, matches_view(ms@));
    let mut out: Vec<Vec<(u32, usize)>> = Vec::new();
    let mut i: usize = 0;
    while i < ms.len()
        invariant
            i <= ms@.len(),
            want == positions(ids@, matches_view(ms@)),
            out@.len() == i,
            want.len() == ms@.len(),
            matches_view(out@) == want.take(i as int),
        decreases ms@.len() - i,
    {
        let m = &ms[i];
        let ghost row_want = want[i as int];
        assert(row_want == m@.map_values(|c: (u32, usize)| (c.0, position_of(ids@, c.1))));
        let mut row: Vec<(u32, usize)> = Vec::new();
        let mut k: usize = 0;
        while k < m.len()
            invariant
                k <= m@.len(),
                row_want == m@.map_values(|c: (u32, usize)| (c.0, position_of(ids@, c.1))),
                row@ == row_want.take(k as int),
            decreases m@.len() - k,
        {
            let (ci, id) = m[k];
            row.push((ci, position_in(ids, id)));
            assert(row@ =~= row_want.take(k + 1));
            k = k + 1;
        }
        assert(row@ =~= row_want);
        let ghost before = out@;
        let ghost row_v = row@;
        out.push(row);
        assert(out@ == before.push(row));
        assert(out@[i as int]@ == want[i as int]);
        assert forall|k: int| 0 <= k < i implies #[trigger] matches_view(out@)[k] == want[k] by {
            assert(out@[k] == before[k]);
            assert(matches_view(before)[k] == want.take(i as int)[k]);
        }
        assert(matches_view(out@) =~= want.take(i + 1));
        i = i + 1;
    }
    assert(want.take(i as int) =~= want);
    out
}

/// The syntax tree tree-sitter builds for `src` with `grammar`, recorded.
pub fn parse_source(grammar: Grammar, src: &str) -> (st: SourceTree)
    ensures
        recorded_from(st, ts_syntax_nodes(grammar, src@), src@),
        source_wf(st),
{
    match parse_syntax(grammar, src) {
        Some((nodes, _ids)) => record_nodes(&nodes, src),
        None => SourceTree { src: chars_of(src), tree: SyntaxTree { nodes: Vec::new() } },
    }
}

/// Parses `src` with `grammar` and runs `query` over the tree: the recorded
/// source, the matches with each captured node by its preorder position, and
/// the capture index of each of `names`. `None` exactly where the query does
/// not compile or one of `names` is none of its captures.
pub fn query_source(grammar: Grammar, src: &str, query: &str, names: &Vec<&str>) -> (r: Option<(SourceTree, Vec<Vec<(u32, usize)>>, Vec<u32>)>)
    ensures
        r is Some <==> ts_query_compiles(grammar, query@) && names_captured(grammar, query@, names@),
        r matches Some(p) ==> {
            &&& recorded_from(p.0, ts_syntax_nodes(grammar, src@), src@)
            &&& source_wf(p.0)
            &&& matches_view(p.1@) == ts_query_matches(grammar, query@, src@)
            &&& p.2@.len() == names@.len()
            &&& forall|k: int| 0 <= k < names@.len() ==> ts_capture_index(grammar, query@, names@[k]@) == Some(#[trigger] p.2@[k])
        },
{
    match parse_and_query(grammar, src, query, names) {
        Some(run) => {
            let st = record_nodes(&run.nodes, src);
            let ms = match_positions(&run.ids, &run.matches);
            Some((st, ms, run.indices))
        },
        None => None,
    }
}

} // verus!
