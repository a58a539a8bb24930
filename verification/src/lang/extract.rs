use vstd::prelude::*;

use crate::lang::common::{capture_node, find_capture, line_number, line_of_row};
use crate::lang::langs::javascript::{is_component_name, is_component_name_of, JAVASCRIPT_REFERENCE_QUERY, JAVASCRIPT_SYMBOL_QUERY};
use crate::lang::langs::python::{
    python_enclosing, python_enclosing_of, python_is_public, python_is_public_at, python_owner,
    python_owner_of, python_signature, python_signature_of, python_symbol_kind, python_symbol_kind_of,
    lemma_python_walk_shaped, python_walk, walk_imports as python_walk_imports, PYTHON_REFERENCE_QUERY, PYTHON_SYMBOL_QUERY,
};
use crate::lang::langs::rust::{
    collect_use_tree, lemma_use_tree_shaped, rust_enclosing, rust_enclosing_of, rust_is_public, rust_is_public_at, rust_owner,
    rust_owner_of, rust_signature, rust_signature_of, rust_symbol_kind, rust_symbol_kind_of,
    use_tree_entries, RUST_REFERENCE_QUERY, RUST_SYMBOL_QUERY, RUST_USE_QUERY,
};
use crate::lang::langs::tsx::TSX_REFERENCE_QUERY;
use crate::lang::langs::typescript::{
    js_is_public, js_is_public_at, lemma_ts_walk_shaped, ts_enclosing, ts_enclosing_of, ts_is_public, ts_is_public_at,
    ts_owner, ts_owner_of, ts_signature, ts_signature_of, ts_symbol_kind, ts_symbol_kind_of, ts_walk,
    walk_imports as ts_walk_imports, TYPESCRIPT_REFERENCE_QUERY, TYPESCRIPT_SYMBOL_QUERY,
};
use crate::lang::support::{all_shaped, entries_view, lemma_shaped_concat, RawReference, RawReferenceView, RawSymbol, RawSymbolView, ScopeEntry, ScopeEntryView, ScopeTable};
use crate::lang::syntax::{field_child, kind_of, node_with_id, text_of, tree_wf, SyntaxTree};
use crate::lang::ts::{
    language_of, matches_view, parse_source, query_source, recorded_from, source_wf, ts_capture_index, ts_query_compiles,
    ts_query_matches, ts_syntax_nodes, Grammar, SourceTree,
};
use crate::text::string_opt;

verus! {

/// The symbol kind of a definition node of kind `kind`.
pub open spec fn symbol_kind_for(g: Grammar, kind: Seq<char>) -> Option<Seq<char>> {
    match g {
        Grammar::Rust => rust_symbol_kind(kind),
        Grammar::Python => python_symbol_kind(kind),
        _ => ts_symbol_kind(kind),
    }
}

/// The signature of definition node `i`.
pub open spec fn signature_for(g: Grammar, t: SyntaxTree, src: Seq<char>, i: int) -> Option<Seq<char>> {
    match g {
        Grammar::Rust => rust_signature(t, src, i),
        Grammar::Python => python_signature(t, src, i),
        _ => ts_signature(t, src, i),
    }
}

/// Whether definition node `i` is public.
pub open spec fn is_public_for(g: Grammar, t: SyntaxTree, src: Seq<char>, i: int) -> bool {
    match g {
        Grammar::Rust => rust_is_public(t, i),
        Grammar::Python => python_is_public(t, src, i),
        Grammar::JavaScript => js_is_public(t, i),
        _ => ts_is_public(t, src, i),
    }
}

/// What definition node `i` belongs to.
pub open spec fn owner_for(g: Grammar, t: SyntaxTree, src: Seq<char>, i: int) -> Option<Seq<char>> {
    match g {
        Grammar::Rust => rust_owner(t, src, i),
        Grammar::Python => python_owner(t, src, i),
        _ => ts_owner(t, src, i),
    }
}

/// The name of the definition node `i` sits in.
pub open spec fn enclosing_for(g: Grammar, t: SyntaxTree, src: Seq<char>, i: int) -> Option<Seq<char>> {
    match g {
        Grammar::Rust => rust_enclosing(t, src, i),
        Grammar::Python => python_enclosing(t, src, i),
        _ => ts_enclosing(t, src, i),
    }
}

/// The symbol kind of a definition node of kind `kind`.
pub fn symbol_kind_for_of(g: Grammar, kind: &str) -> (r: Option<String>)
    ensures
        string_opt(r) == symbol_kind_for(g, kind@),
{
    match g {
        Grammar::Rust => rust_symbol_kind_of(kind),
        Grammar::Python => python_symbol_kind_of(kind),
        _ => ts_symbol_kind_of(kind),
    }
}

fn signature_for_of(g: Grammar, t: &SyntaxTree, src: &[char], i: usize) -> (r: Option<String>)
    requires
        i < t.nodes@.len(),
        tree_wf(*t, src@.len()),
    ensures
        string_opt(r) == signature_for(g, *t, src@, i as int),
{
    match g {
        Grammar::Rust => rust_signature_of(t, src, i),
        Grammar::Python => python_signature_of(t, src, i),
        _ => ts_signature_of(t, src, i),
    }
}

fn is_public_for_at(g: Grammar, t: &SyntaxTree, src: &[char], i: usize) -> (b: bool)
    requires
        i < t.nodes@.len(),
        tree_wf(*t, src@.len()),
    ensures
        b == is_public_for(g, *t, src@, i as int),
{
    match g {
        Grammar::Rust => rust_is_public_at(t, i),
        Grammar::Python => python_is_public_at(t, src, i),
        Grammar::JavaScript => js_is_public_at(t, i),
        _ => ts_is_public_at(t, src, i),
    }
}

fn owner_for_of(g: Grammar, t: &SyntaxTree, src: &[char], i: usize) -> (r: Option<String>)
    requires
        i < t.nodes@.len(),
        tree_wf(*t, src@.len()),
    ensures
        string_opt(r) == owner_for(g, *t, src@, i as int),
{
    match g {
        Grammar::Rust => rust_owner_of(t, src, i),
        Grammar::Python => python_owner_of(t, src, i),
        _ => ts_owner_of(t, src, i),
    }
}

fn enclosing_for_of(g: Grammar, t: &SyntaxTree, src: &[char], i: usize) -> (r: Option<String>)
    requires
        i < t.nodes@.len(),
        tree_wf(*t, src@.len()),
    ensures
        string_opt(r) == enclosing_for(g, *t, src@, i as int),
{
    match g {
        Grammar::Rust => rust_enclosing_of(t, src, i),
        Grammar::Python => python_enclosing_of(t, src, i),
        _ => ts_enclosing_of(t, src, i),
    }
}

/// The symbol one match of the symbol query gives: the definition captured
/// as `di`, named by the text captured as `ni`.
pub open spec fn symbol_of_match(g: Grammar, t: SyntaxTree, src: Seq<char>, m: Seq<(u32, usize)>, di: u32, ni: u32) -> Option<RawSymbolView> {
    match (capture_node(t, m, di), capture_node(t, m, ni)) {
        (Some(d), Some(n)) => match symbol_kind_for(g, kind_of(t, d)) {
            Some(k) => Some(
                RawSymbolView {
                    name: text_of(t, src, n),
                    kind: k,
                    line: line_number(t.nodes@[d].start_row),
                    signature: signature_for(g, t, src, d),
                    is_public: is_public_for(g, t, src, d),
                    owner: owner_for(g, t, src, d),
                },
            ),
            None => None,
        },
        _ => None,
    }
}

/// The symbols of the first `k` matches, in order.
pub open spec fn symbols_of_matches(
    g: Grammar,
    t: SyntaxTree,
    src: Seq<char>,
    ms: Seq<Seq<(u32, usize)>>,
    di: u32,
    ni: u32,
    k: int,
) -> Seq<RawSymbolView>
    decreases k,
{
    if k <= 0 || k > ms.len() {
        Seq::empty()
    } else {
        let rest = symbols_of_matches(g, t, src, ms, di, ni, k - 1);
        match symbol_of_match(g, t, src, ms[k - 1], di, ni) {
            Some(s) => rest.push(s),
            None => rest,
        }
    }
}

/// The views of a list of symbols.
pub open spec fn symbols_view(v: Seq<RawSymbol>) -> Seq<RawSymbolView> {
    v.map_values(|s: RawSymbol| s@)
}

/// The views of a list of references.
pub open spec fn references_view(v: Seq<RawReference>) -> Seq<RawReferenceView> {
    v.map_values(|r: RawReference| r@)
}

/// The symbols the matches of a symbol query give, one per match whose
/// definition and name captures are in the tree.
pub fn symbols_from_matches(g: Grammar, st: &SourceTree, ms: &Vec<Vec<(u32, usize)>>, di: u32, ni: u32) -> (out: Vec<RawSymbol>)
    requires
        source_wf(*st),
    ensures
        symbols_view(out@) == symbols_of_matches(g, st.tree, st.src@, matches_view(ms@), di, ni, ms@.len() as int),
{
    let t = &st.tree;
    let src = st.src.as_slice();
    let ghost msv = matches_view(ms@);
    let mut out: Vec<RawSymbol> = Vec::new();
    let mut k: usize = 0;
    while k < ms.len()
        invariant
            source_wf(*st),
            t == &st.tree,
            src@ == st.src@,
            msv == matches_view(ms@),
            k <= ms@.len(),
            symbols_view(out@) == symbols_of_matches(g, *t, src@, msv, di, ni, k as int),
        decreases ms@.len() - k,
    {
        let m = &ms[k];
        assert(msv[k as int] == m@);
        let ghost before = symbols_view(out@);
        let d = find_capture(t, m, di);
        let n = find_capture(t, m, ni);
        if let (Some(d), Some(n)) = (d, n) {
            let kind = symbol_kind_for_of(g, t.nodes[d].kind.as_str());
            if let Some(kind) = kind {
                let sym = RawSymbol {
                    name: t.text(src, n),
                    kind,
                    line: line_of_row(t.nodes[d].start_row),
                    signature: signature_for_of(g, t, src, d),
                    is_public: is_public_for_at(g, t, src, d),
                    owner: owner_for_of(g, t, src, d),
                };
                out.push(sym);
            }
        }
        assert(symbols_view(out@) =~= symbols_of_matches(g, *t, src@, msv, di, ni, k + 1));
        k = k + 1;
    }
    out
}

/// The reference one match of a reference query gives: the node captured as
/// `ci`, with the definition it sits in.
pub open spec fn reference_of_match(g: Grammar, t: SyntaxTree, src: Seq<char>, m: Seq<(u32, usize)>, ci: u32) -> Option<RawReferenceView> {
    match capture_node(t, m, ci) {
        Some(c) => Some(
            RawReferenceView {
                callee_name: text_of(t, src, c),
                line: line_number(t.nodes@[c].start_row),
                caller_name: enclosing_for(g, t, src, c),
            },
        ),
        None => None,
    }
}

/// The references of the first `k` matches, in order.
pub open spec fn references_of_matches(g: Grammar, t: SyntaxTree, src: Seq<char>, ms: Seq<Seq<(u32, usize)>>, ci: u32, k: int) -> Seq<RawReferenceView>
    decreases k,
{
    if k <= 0 || k > ms.len() {
        Seq::empty()
    } else {
        let rest = references_of_matches(g, t, src, ms, ci, k - 1);
        match reference_of_match(g, t, src, ms[k - 1], ci) {
            Some(r) => rest.push(r),
            None => rest,
        }
    }
}

/// The reference at tree node `c`.
fn reference_at(g: Grammar, t: &SyntaxTree, src: &[char], c: usize) -> (r: RawReference)
    requires
        c < t.nodes@.len(),
        tree_wf(*t, src@.len()),
    ensures
        r@ == (RawReferenceView {
            callee_name: text_of(*t, src@, c as int),
            line: line_number(t.nodes@[c as int].start_row),
            caller_name: enclosing_for(g, *t, src@, c as int),
        }),
{
    RawReference { callee_name: t.text(src, c), line: line_of_row(t.nodes[c].start_row), caller_name: enclosing_for_of(g, t, src, c) }
}

/// The references the matches of a reference query give, one per match
/// whose callee capture is in the tree.
pub fn references_from_matches(g: Grammar, st: &SourceTree, ms: &Vec<Vec<(u32, usize)>>, ci: u32) -> (out: Vec<RawReference>)
    requires
        source_wf(*st),
    ensures
        references_view(out@) == references_of_matches(g, st.tree, st.src@, matches_view(ms@), ci, ms@.len() as int),
{
    let t = &st.tree;
    let src = st.src.as_slice();
    let ghost msv = matches_view(ms@);
    let mut out: Vec<RawReference> = Vec::new();
    let mut k: usize = 0;
    while k < ms.len()
        invariant
            source_wf(*st),
            t == &st.tree,
            src@ == st.src@,
            msv == matches_view(ms@),
            k <= ms@.len(),
            references_view(out@) == references_of_matches(g, *t, src@, msv, ci, k as int),
        decreases ms@.len() - k,
    {
        let m = &ms[k];
        assert(msv[k as int] == m@);
        if let Some(c) = find_capture(t, m, ci) {
            out.push(reference_at(g, t, src, c));
        }
        assert(references_view(out@) =~= references_of_matches(g, *t, src@, msv, ci, k + 1));
        k = k + 1;
    }
    out
}

/// The reference one capture of a JSX-aware reference query gives: calls
/// (`ci`) always, JSX elements (`ji`) only where they name a component.
pub open spec fn jsx_reference_of_capture(g: Grammar, t: SyntaxTree, src: Seq<char>, cap: (u32, usize), ci: u32, ji: u32) -> Option<RawReferenceView> {
    match node_with_id(t, cap.1) {
        Some(c) => {
            let name = text_of(t, src, c);
            if cap.0 == ji && !is_component_name(name) {
                None
            } else if cap.0 != ci && cap.0 != ji {
                None
            } else {
                Some(RawReferenceView { callee_name: name, line: line_number(t.nodes@[c].start_row), caller_name: enclosing_for(g, t, src, c) })
            }
        },
        None => None,
    }
}

/// The references of the first `k` captures of one match.
pub open spec fn jsx_references_of_match(g: Grammar, t: SyntaxTree, src: Seq<char>, m: Seq<(u32, usize)>, ci: u32, ji: u32, k: int) -> Seq<RawReferenceView>
    decreases k,
{
    if k <= 0 || k > m.len() {
        Seq::empty()
    } else {
        let rest = jsx_references_of_match(g, t, src, m, ci, ji, k - 1);
        match jsx_reference_of_capture(g, t, src, m[k - 1], ci, ji) {
            Some(r) => rest.push(r),
            None => rest,
        }
    }
}

/// The references of the first `k` matches of a JSX-aware query, in order.
pub open spec fn jsx_references_of_matches(g: Grammar, t: SyntaxTree, src: Seq<char>, ms: Seq<Seq<(u32, usize)>>, ci: u32, ji: u32, k: int) -> Seq<RawReferenceView>
    decreases k,
{
    if k <= 0 || k > ms.len() {
        Seq::empty()
    } else {
        jsx_references_of_matches(g, t, src, ms, ci, ji, k - 1) + jsx_references_of_match(g, t, src, ms[k - 1], ci, ji, ms[k - 1].len() as int)
    }
}

/// The references the matches of a JSX-aware reference query give.
pub fn jsx_references_from_matches(g: Grammar, st: &SourceTree, ms: &Vec<Vec<(u32, usize)>>, ci: u32, ji: u32) -> (out: Vec<RawReference>)
    requires
        source_wf(*st),
    ensures
        references_view(out@) == jsx_references_of_matches(g, st.tree, st.src@, matches_view(ms@), ci, ji, ms@.len() as int),
{
    let t = &st.tree;
    let src = st.src.as_slice();
    let ghost msv = matches_view(ms@);
    let mut out: Vec<RawReference> = Vec::new();
    let mut k: usize = 0;
    while k < ms.len()
        invariant
            source_wf(*st),
            t == &st.tree,
            src@ == st.src@,
            msv == matches_view(ms@),
            k <= ms@.len(),
            references_view(out@) == jsx_references_of_matches(g, *t, src@, msv, ci, ji, k as int),
        decreases ms@.len() - k,
    {
        let m = &ms[k];
        assert(msv[k as int] == m@);
        let ghost base = references_view(out@);
        let mut j: usize = 0;
        while j < m.len()
            invariant
                source_wf(*st),
                t == &st.tree,
                src@ == st.src@,
                j <= m@.len(),
                references_view(out@) == base + jsx_references_of_match(g, *t, src@, m@, ci, ji, j as int),
            decreases m@.len() - j,
        {
            let ix = m[j].0;
            let id = m[j].1;
            let ghost prev = references_view(out@);
            assert(prev == base + jsx_references_of_match(g, *t, src@, m@, ci, ji, j as int));
            let ghost cap = m@[j as int];
            assert(cap.0 == ix && cap.1 == id);
            if let Some(c) = t.node_with_id(id) {
                let name = t.text_chars(src, c);
                let skip = (ix == ji && !is_component_name_of(name.as_slice())) || (ix != ci && ix != ji);
                if !skip {
                    let r = reference_at(g, t, src, c);
                    assert(jsx_reference_of_capture(g, *t, src@, cap, ci, ji) == Some(r@));
                    out.push(r);
                    assert(references_view(out@) =~= prev.push(r@));
                } else {
                    assert(jsx_reference_of_capture(g, *t, src@, cap, ci, ji) is None);
                }
            } else {
                assert(jsx_reference_of_capture(g, *t, src@, cap, ci, ji) is None);
            }
            assert(references_view(out@) =~= base + jsx_references_of_match(g, *t, src@, m@, ci, ji, j + 1));
            j = j + 1;
        }
        assert(references_view(out@) =~= jsx_references_of_matches(g, *t, src@, msv, ci, ji, k + 1));
        k = k + 1;
    }
    out
}

/// The entries one captured `use` declaration gives: its argument tree, as
/// re-exports where the declaration is public.
pub open spec fn rust_use_entries(t: SyntaxTree, src: Seq<char>, cap: (u32, usize)) -> Seq<ScopeEntryView> {
    match node_with_id(t, cap.1) {
        Some(d) => match field_child(t, d, "argument"@) {
            Some(a) => use_tree_entries(t, src, a, None, rust_is_public(t, d)),
            None => Seq::empty(),
        },
        None => Seq::empty(),
    }
}

/// The entries of the first `k` captures of one match of the `use` query.
pub open spec fn rust_use_match_entries(t: SyntaxTree, src: Seq<char>, m: Seq<(u32, usize)>, k: int) -> Seq<ScopeEntryView>
    decreases k,
{
    if k <= 0 || k > m.len() {
        Seq::empty()
    } else {
        rust_use_match_entries(t, src, m, k - 1) + rust_use_entries(t, src, m[k - 1])
    }
}

/// The entries of the first `k` matches of the `use` query, in order.
pub open spec fn rust_scope_of_matches(t: SyntaxTree, src: Seq<char>, ms: Seq<Seq<(u32, usize)>>, k: int) -> Seq<ScopeEntryView>
    decreases k,
{
    if k <= 0 || k > ms.len() {
        Seq::empty()
    } else {
        rust_scope_of_matches(t, src, ms, k - 1) + rust_use_match_entries(t, src, ms[k - 1], ms[k - 1].len() as int)
    }
}

/// The imports of a Rust file from the matches of its `use` query.
pub fn rust_scope_from_matches(st: &SourceTree, ms: &Vec<Vec<(u32, usize)>>) -> (out: Vec<ScopeEntry>)
    requires
        source_wf(*st),
    ensures
        entries_view(out@) == rust_scope_of_matches(st.tree, st.src@, matches_view(ms@), ms@.len() as int),
{
    let t = &st.tree;
    let src = st.src.as_slice();
    let ghost msv = matches_view(ms@);
    let mut out: Vec<ScopeEntry> = Vec::new();
    let mut k: usize = 0;
    while k < ms.len()
        invariant
            source_wf(*st),
            t == &st.tree,
            src@ == st.src@,
            msv == matches_view(ms@),
            k <= ms@.len(),
            entries_view(out@) == rust_scope_of_matches(*t, src@, msv, k as int),
        decreases ms@.len() - k,
    {
        let m = &ms[k];
        assert(msv[k as int] == m@);
        let ghost base = entries_view(out@);
        let mut j: usize = 0;
        while j < m.len()
            invariant
                source_wf(*st),
                t == &st.tree,
                src@ == st.src@,
                j <= m@.len(),
                entries_view(out@) == base + rust_use_match_entries(*t, src@, m@, j as int),
            decreases m@.len() - j,
        {
            let id = m[j].1;
            let ghost prev = entries_view(out@);
            if let Some(d) = t.node_with_id(id) {
                if let Some(a) = t.child_by_field(d, "argument") {
                    let rx = rust_is_public_at(t, d);
                    collect_use_tree(t, src, a, None, rx, &mut out);
                }
            }
            assert(entries_view(out@) =~= base + rust_use_match_entries(*t, src@, m@, j + 1));
            j = j + 1;
        }
        assert(entries_view(out@) =~= rust_scope_of_matches(*t, src@, msv, k + 1));
        k = k + 1;
    }
    out
}

/// Every import entry the `use` matches give is shaped: it has a local name
/// exactly when it is neither a wildcard nor a side-effect import.
pub proof fn lemma_rust_scope_shaped(t: SyntaxTree, src: Seq<char>, ms: Seq<Seq<(u32, usize)>>, k: int)
    ensures
        all_shaped(rust_scope_of_matches(t, src, ms, k)),
    decreases k,
{
    if k > 0 && k <= ms.len() {
        lemma_rust_scope_shaped(t, src, ms, k - 1);
        lemma_rust_match_shaped(t, src, ms[k - 1], ms[k - 1].len() as int);
        lemma_shaped_concat(
            rust_scope_of_matches(t, src, ms, k - 1),
            rust_use_match_entries(t, src, ms[k - 1], ms[k - 1].len() as int),
        );
    }
}

proof fn lemma_rust_match_shaped(t: SyntaxTree, src: Seq<char>, m: Seq<(u32, usize)>, k: int)
    ensures
        all_shaped(rust_use_match_entries(t, src, m, k)),
    decreases k,
{
    if k > 0 && k <= m.len() {
        lemma_rust_match_shaped(t, src, m, k - 1);
        let cap = m[k - 1];
        if let Some(d) = node_with_id(t, cap.1) {
            if let Some(a) = field_child(t, d, "argument"@) {
                lemma_use_tree_shaped(t, src, a, None, rust_is_public(t, d));
            }
        }
        lemma_shaped_concat(rust_use_match_entries(t, src, m, k - 1), rust_use_entries(t, src, cap));
    }
}

/// Every import entry a walk of the tree gives is shaped.
pub proof fn lemma_walked_scope_shaped(g: Grammar, t: SyntaxTree, src: Seq<char>)
    ensures
        all_shaped(walked_scope(g, t, src)),
{
    match g {
        Grammar::Python => lemma_python_walk_shaped(t, src, 0),
        _ => lemma_ts_walk_shaped(t, src, 0),
    }
}

/// The imports of a Python, TypeScript or JavaScript file: those found by
/// walking its tree from the root in preorder.
pub open spec fn walked_scope(g: Grammar, t: SyntaxTree, src: Seq<char>) -> Seq<ScopeEntryView> {
    match g {
        Grammar::Python => python_walk(t, src, 0),
        _ => ts_walk(t, src, 0),
    }
}

/// The imports of a Python, TypeScript or JavaScript file.
pub fn walked_scope_of(g: Grammar, st: &SourceTree) -> (out: Vec<ScopeEntry>)
    requires
        source_wf(*st),
    ensures
        entries_view(out@) == walked_scope(g, st.tree, st.src@),
{
    let mut out: Vec<ScopeEntry> = Vec::new();
    assert(entries_view(out@) =~= Seq::<ScopeEntryView>::empty());
    match g {
        Grammar::Python => python_walk_imports(&st.tree, st.src.as_slice(), 0, &mut out),
        _ => ts_walk_imports(&st.tree, st.src.as_slice(), 0, &mut out),
    }
    assert(entries_view(out@) =~= walked_scope(g, st.tree, st.src@));
    out
}

/// The file extensions a grammar reads.
pub open spec fn extensions_of(g: Grammar) -> Seq<Seq<char>> {
    match g {
        Grammar::Rust => seq!["rs"@],
        Grammar::Python => seq!["py"@],
        Grammar::TypeScript => seq!["ts"@],
        Grammar::Tsx => seq!["tsx"@],
        Grammar::JavaScript => seq!["js"@, "jsx"@, "mjs"@, "cjs"@],
    }
}

/// The symbol kinds a grammar's definitions get.
pub open spec fn is_symbol_kind(g: Grammar, k: Seq<char>) -> bool {
    match g {
        Grammar::Rust => k == "function"@ || k == "struct"@ || k == "enum"@ || k == "trait"@,
        Grammar::Python => k == "function"@ || k == "class"@,
        _ => k == "function"@ || k == "method"@ || k == "class"@ || k == "interface"@ || k == "type"@ || k
            == "enum"@,
    }
}

/// The symbol query text of a grammar.
pub open spec fn symbol_query_text(g: Grammar) -> &'static str {
    match g {
        Grammar::Rust => RUST_SYMBOL_QUERY,
        Grammar::Python => PYTHON_SYMBOL_QUERY,
        Grammar::JavaScript => JAVASCRIPT_SYMBOL_QUERY,
        _ => TYPESCRIPT_SYMBOL_QUERY,
    }
}

/// The reference query text of a grammar.
pub open spec fn reference_query_text(g: Grammar) -> &'static str {
    match g {
        Grammar::Rust => RUST_REFERENCE_QUERY,
        Grammar::Python => PYTHON_REFERENCE_QUERY,
        Grammar::TypeScript => TYPESCRIPT_REFERENCE_QUERY,
        Grammar::Tsx => TSX_REFERENCE_QUERY,
        Grammar::JavaScript => JAVASCRIPT_REFERENCE_QUERY,
    }
}

/// The grammars whose reference query also captures JSX elements.
pub open spec fn reads_jsx(g: Grammar) -> bool {
    g == Grammar::Tsx || g == Grammar::JavaScript
}

/// A definition kind maps to one of the grammar's symbol kinds.
pub proof fn lemma_symbol_kind_for_valid(g: Grammar, kind: Seq<char>)
    ensures
        symbol_kind_for(g, kind) matches Some(k) ==> is_symbol_kind(g, k),
{
}

/// Every reference the matches give has a line of at least one.
pub proof fn lemma_reference_lines(g: Grammar, t: SyntaxTree, src: Seq<char>, ms: Seq<Seq<(u32, usize)>>, ci: u32, k: int)
    ensures
        forall|j: int|
            0 <= j < references_of_matches(g, t, src, ms, ci, k).len() ==> (#[trigger] references_of_matches(
                g,
                t,
                src,
                ms,
                ci,
                k,
            )[j]).line >= 1,
    decreases k,
{
    if k > 0 && k <= ms.len() {
        lemma_reference_lines(g, t, src, ms, ci, k - 1);
    }
}

proof fn lemma_jsx_match_lines(g: Grammar, t: SyntaxTree, src: Seq<char>, m: Seq<(u32, usize)>, ci: u32, ji: u32, k: int)
    ensures
        forall|j: int|
            0 <= j < jsx_references_of_match(g, t, src, m, ci, ji, k).len() ==> (#[trigger] jsx_references_of_match(
                g,
                t,
                src,
                m,
                ci,
                ji,
                k,
            )[j]).line >= 1,
    decreases k,
{
    if k > 0 && k <= m.len() {
        lemma_jsx_match_lines(g, t, src, m, ci, ji, k - 1);
    }
}

/// Every reference the matches of a JSX-aware query give has a line of at
/// least one.
pub proof fn lemma_jsx_reference_lines(
    g: Grammar,
    t: SyntaxTree,
    src: Seq<char>,
    ms: Seq<Seq<(u32, usize)>>,
    ci: u32,
    ji: u32,
    k: int,
)
    ensures
        forall|j: int|
            0 <= j < jsx_references_of_matches(g, t, src, ms, ci, ji, k).len() ==> (#[trigger] jsx_references_of_matches(
                g,
                t,
                src,
                ms,
                ci,
                ji,
                k,
            )[j]).line >= 1,
    decreases k,
{
    if k > 0 && k <= ms.len() {
        lemma_jsx_reference_lines(g, t, src, ms, ci, ji, k - 1);
        lemma_jsx_match_lines(g, t, src, ms[k - 1], ci, ji, ms[k - 1].len() as int);
        let a = jsx_references_of_matches(g, t, src, ms, ci, ji, k - 1);
        let b = jsx_references_of_match(g, t, src, ms[k - 1], ci, ji, ms[k - 1].len() as int);
        assert forall|j: int| 0 <= j < (a + b).len() implies (#[trigger] (a + b)[j]).line >= 1 by {
            if j >= a.len() {
                assert((a + b)[j] == b[j - a.len()]);
            }
        }
    }
}

/// Every symbol the matches give has one of the grammar's symbol kinds and a
/// line of at least one.
pub proof fn lemma_symbols_well_formed(
    g: Grammar,
    t: SyntaxTree,
    src: Seq<char>,
    ms: Seq<Seq<(u32, usize)>>,
    di: u32,
    ni: u32,
    k: int,
)
    ensures
        forall|j: int|
            0 <= j < symbols_of_matches(g, t, src, ms, di, ni, k).len() ==> is_symbol_kind(
                g,
                (#[trigger] symbols_of_matches(g, t, src, ms, di, ni, k)[j]).kind,
            ) && symbols_of_matches(g, t, src, ms, di, ni, k)[j].line >= 1,
    decreases k,
{
    if k > 0 && k <= ms.len() {
        lemma_symbols_well_formed(g, t, src, ms, di, ni, k - 1);
        match symbol_of_match(g, t, src, ms[k - 1], di, ni) {
            Some(s) => {
                match (capture_node(t, ms[k - 1], di), capture_node(t, ms[k - 1], ni)) {
                    (Some(d), Some(n)) => lemma_symbol_kind_for_valid(g, kind_of(t, d)),
                    _ => {},
                }
            },
            None => {},
        }
    }
}

/// The references one reference query's matches give: with JSX elements
/// for the grammars whose query captures them.
pub open spec fn references_for(g: Grammar, t: SyntaxTree, src: Seq<char>, ms: Seq<Seq<(u32, usize)>>, ci: u32, ji: u32) -> Seq<RawReferenceView> {
    if reads_jsx(g) {
        jsx_references_of_matches(g, t, src, ms, ci, ji, ms.len() as int)
    } else {
        references_of_matches(g, t, src, ms, ci, ms.len() as int)
    }
}

/// The imports a syntax tree gives: for Rust those of the `use` query's
/// matches `ms`, for the others those found walking the tree.
pub open spec fn scope_for(g: Grammar, t: SyntaxTree, src: Seq<char>, ms: Seq<Seq<(u32, usize)>>) -> Seq<ScopeEntryView> {
    if g == Grammar::Rust {
        rust_scope_of_matches(t, src, ms, ms.len() as int)
    } else {
        walked_scope(g, t, src)
    }
}

/// `out` is the definitions tree-sitter's parse of `src` gives: where the
/// symbol query compiles and captures `definition` and `name`, what its matches
/// give over the recorded tree (see `symbols_of_matches`); otherwise nothing.
/// The recorded tree is fixed by `recorded_from` up to nothing the extraction
/// reads.
pub open spec fn symbols_extracted(g: Grammar, src: Seq<char>, out: Seq<RawSymbolView>) -> bool {
    let q = symbol_query_text(g)@;
    let di = ts_capture_index(g, q, "definition"@);
    let ni = ts_capture_index(g, q, "name"@);
    let ms = ts_query_matches(g, q, src);
    if ts_query_compiles(g, q) && di is Some && ni is Some {
        exists|st: SourceTree|
            #[trigger] recorded_from(st, ts_syntax_nodes(g, src), src) && out == symbols_of_matches(
                g,
                st.tree,
                src,
                ms,
                di->0,
                ni->0,
                ms.len() as int,
            )
    } else {
        out.len() == 0
    }
}

/// `out` is the call sites tree-sitter's parse of `src` gives: where the
/// reference query compiles and captures `callee` (and `jsx_callee` for the
/// JSX-aware grammars), what its matches give over the recorded tree (see
/// `references_for`); otherwise nothing.
pub open spec fn references_extracted(g: Grammar, src: Seq<char>, out: Seq<RawReferenceView>) -> bool {
    let q = reference_query_text(g)@;
    let ci = ts_capture_index(g, q, "callee"@);
    let ji = ts_capture_index(g, q, "jsx_callee"@);
    let ms = ts_query_matches(g, q, src);
    if ts_query_compiles(g, q) && ci is Some && (reads_jsx(g) ==> ji is Some) {
        exists|st: SourceTree|
            #[trigger] recorded_from(st, ts_syntax_nodes(g, src), src) && out == references_for(
                g,
                st.tree,
                src,
                ms,
                ci->0,
                if reads_jsx(g) {
                    ji->0
                } else {
                    0
                },
            )
    } else {
        out.len() == 0
    }
}

/// `out` is the imports tree-sitter's parse of `src` gives (see `scope_for`):
/// for Rust those of the `use` query's matches, where it compiles and captures
/// `use`, otherwise none; for the others those found walking the tree.
pub open spec fn scope_extracted(g: Grammar, src: Seq<char>, out: Seq<ScopeEntryView>) -> bool {
    let q = RUST_USE_QUERY@;
    if g == Grammar::Rust && !(ts_query_compiles(g, q) && ts_capture_index(g, q, "use"@) is Some) {
        out.len() == 0
    } else {
        exists|st: SourceTree|
            #[trigger] recorded_from(st, ts_syntax_nodes(g, src), src) && out == scope_for(
                g,
                st.tree,
                src,
                if g == Grammar::Rust {
                    ts_query_matches(g, q, src)
                } else {
                    Seq::empty()
                },
            )
    }
}

impl Grammar {
    /// The file extensions this grammar reads.
    pub fn extensions(&self) -> (r: Vec<&'static str>)
        ensures
            r@.map_values(|s: &'static str| s@) == extensions_of(*self),
    {
        let r: Vec<&'static str> = match self {
            Grammar::Rust => vec!["rs"],
            Grammar::Python => vec!["py"],
            Grammar::TypeScript => vec!["ts"],
            Grammar::Tsx => vec!["tsx"],
            Grammar::JavaScript => vec!["js", "jsx", "mjs", "cjs"],
        };
        assert(r@.map_values(|s: &'static str| s@) =~= extensions_of(*self));
        r
    }

    /// The tree-sitter language of this grammar.
    pub fn grammar(&self) -> tree_sitter::Language {
        language_of(*self)
    }

    /// The query whose matches are this grammar's definitions.
    pub fn symbol_query(&self) -> (q: &'static str)
        ensures
            q == symbol_query_text(*self),
    {
        match self {
            Grammar::Rust => RUST_SYMBOL_QUERY,
            Grammar::Python => PYTHON_SYMBOL_QUERY,
            Grammar::JavaScript => JAVASCRIPT_SYMBOL_QUERY,
            _ => TYPESCRIPT_SYMBOL_QUERY,
        }
    }

    /// The query whose matches are this grammar's call sites.
    pub fn reference_query(&self) -> (q: &'static str)
        ensures
            q == reference_query_text(*self),
    {
        match self {
            Grammar::Rust => RUST_REFERENCE_QUERY,
            Grammar::Python => PYTHON_REFERENCE_QUERY,
            Grammar::TypeScript => TYPESCRIPT_REFERENCE_QUERY,
            Grammar::Tsx => TSX_REFERENCE_QUERY,
            Grammar::JavaScript => JAVASCRIPT_REFERENCE_QUERY,
        }
    }

    /// The symbol kind of a definition node of kind `node_kind`.
    pub fn symbol_kind(&self, node_kind: &str) -> (k: String)
        requires
            symbol_kind_for(*self, node_kind@) is Some,
        ensures
            symbol_kind_for(*self, node_kind@) == Some(k@),
    {
        match symbol_kind_for_of(*self, node_kind) {
            Some(k) => k,
            None => String::new(),
        }
    }

    /// The definitions in `src`: one symbol per match of the symbol query
    /// (see `symbols_from_matches`). Empty where the query does not compile
    /// or lacks its captures.
    pub fn extract_symbols(&self, src: &str) -> (out: Vec<RawSymbol>)
        ensures
            forall|j: int| 0 <= j < out@.len() ==> is_symbol_kind(*self, (#[trigger] out@[j]).kind@) && out@[j].line >= 1,
            symbols_extracted(*self, src@, symbols_view(out@)),
    {
        let names: Vec<&str> = vec!["definition", "name"];
        let q = self.symbol_query();
        proof {
            assert(names@[0]@ == "definition"@ && names@[1]@ == "name"@);
        }
        match query_source(*self, src, q, &names) {
            Some((st, ms, ix)) => {
                assert(ts_capture_index(*self, q@, names@[0]@) == Some(ix@[0]));
                assert(ts_capture_index(*self, q@, names@[1]@) == Some(ix@[1]));
                let out = symbols_from_matches(*self, &st, &ms, ix[0], ix[1]);
                proof {
                    lemma_symbols_well_formed(*self, st.tree, st.src@, matches_view(ms@), ix@[0], ix@[1], ms@.len() as int);
                    assert forall|j: int| 0 <= j < out@.len() implies is_symbol_kind(*self, (#[trigger] out@[j]).kind@) && out@[j].line >= 1 by {
                        assert(symbols_view(out@)[j] == out@[j]@);
                    }
                    assert(recorded_from(st, ts_syntax_nodes(*self, src@), src@));
                }
                out
            },
            None => {
                proof {
                    if ts_query_compiles(*self, q@) && ts_capture_index(*self, q@, "definition"@) is Some && ts_capture_index(
                        *self,
                        q@,
                        "name"@,
                    ) is Some {
                        assert forall|k: int| 0 <= k < names@.len() implies (#[trigger] ts_capture_index(*self, q@, names@[k]@)) is Some by {
                            assert(k == 0 || k == 1);
                        }
                    }
                }
                let out: Vec<RawSymbol> = Vec::new();
                assert(symbols_view(out@) =~= Seq::<RawSymbolView>::empty());
                out
            },
        }
    }

    /// The call sites in `src`: one reference per match of the reference
    /// query, and for JSX-aware grammars one per captured call or component
    /// element (see `references_from_matches` and
    /// `jsx_references_from_matches`). Empty where the query does not compile
    /// or lacks its captures.
    pub fn extract_references(&self, src: &str) -> (out: Vec<RawReference>)
        ensures
            forall|j: int| 0 <= j < out@.len() ==> (#[trigger] out@[j]).line >= 1,
            references_extracted(*self, src@, references_view(out@)),
    {
        let q = self.reference_query();
        if reads_jsx_of(*self) {
            let names: Vec<&str> = vec!["callee", "jsx_callee"];
            proof {
                assert(names@[0]@ == "callee"@ && names@[1]@ == "jsx_callee"@);
            }
            match query_source(*self, src, q, &names) {
                Some((st, ms, ix)) => {
                    assert(ts_capture_index(*self, q@, names@[0]@) == Some(ix@[0]));
                    assert(ts_capture_index(*self, q@, names@[1]@) == Some(ix@[1]));
                    let out = jsx_references_from_matches(*self, &st, &ms, ix[0], ix[1]);
                    proof {
                        assert(references_view(out@) == references_for(*self, st.tree, src@, matches_view(ms@), ix@[0], ix@[1]));
                        lemma_jsx_reference_lines(*self, st.tree, st.src@, matches_view(ms@), ix@[0], ix@[1], ms@.len() as int);
                        assert forall|j: int| 0 <= j < out@.len() implies (#[trigger] out@[j]).line >= 1 by {
                            assert(references_view(out@)[j] == out@[j]@);
                        }
                        assert(recorded_from(st, ts_syntax_nodes(*self, src@), src@));
                    }
                    out
                },
                None => {
                    proof {
                        if ts_query_compiles(*self, q@) && ts_capture_index(*self, q@, "callee"@) is Some && ts_capture_index(
                            *self,
                            q@,
                            "jsx_callee"@,
                        ) is Some {
                            assert forall|k: int| 0 <= k < names@.len() implies (#[trigger] ts_capture_index(*self, q@, names@[k]@)) is Some by {
                                assert(k == 0 || k == 1);
                            }
                        }
                    }
                    let out: Vec<RawReference> = Vec::new();
                    assert(references_view(out@) =~= Seq::<RawReferenceView>::empty());
                    out
                },
            }
        } else {
            let names: Vec<&str> = vec!["callee"];
            proof {
                assert(names@[0]@ == "callee"@);
            }
            match query_source(*self, src, q, &names) {
                Some((st, ms, ix)) => {
                    assert(ts_capture_index(*self, q@, names@[0]@) == Some(ix@[0]));
                    let out = references_from_matches(*self, &st, &ms, ix[0]);
                    proof {
                        assert(references_view(out@) == references_for(*self, st.tree, src@, matches_view(ms@), ix@[0], 0));
                        lemma_reference_lines(*self, st.tree, st.src@, matches_view(ms@), ix@[0], ms@.len() as int);
                        assert forall|j: int| 0 <= j < out@.len() implies (#[trigger] out@[j]).line >= 1 by {
                            assert(references_view(out@)[j] == out@[j]@);
                        }
                        assert(recorded_from(st, ts_syntax_nodes(*self, src@), src@));
                    }
                    out
                },
                None => {
                    proof {
                        if ts_query_compiles(*self, q@) && ts_capture_index(*self, q@, "callee"@) is Some {
                            assert forall|k: int| 0 <= k < names@.len() implies (#[trigger] ts_capture_index(*self, q@, names@[k]@)) is Some by {
                                assert(k == 0);
                            }
                        }
                    }
                    let out: Vec<RawReference> = Vec::new();
                    assert(references_view(out@) =~= Seq::<RawReferenceView>::empty());
                    out
                },
            }
        }
    }

    /// The imports of `src`: for Rust those of its `use` declarations (see
    /// `rust_scope_from_matches`), for the others those found walking its
    /// syntax tree (see `walked_scope_of`).
    pub fn scope_of_source(&self, src: &str) -> (table: ScopeTable)
        ensures
            all_shaped(entries_view(table.entries@)),
            scope_extracted(*self, src@, entries_view(table.entries@)),
    {
        match self {
            Grammar::Rust => {
                let names: Vec<&str> = vec!["use"];
                proof {
                    assert(names@[0]@ == "use"@);
                }
                match query_source(*self, src, RUST_USE_QUERY, &names) {
                    Some((st, ms, _ix)) => {
                        let entries = rust_scope_from_matches(&st, &ms);
                        proof {
                            lemma_rust_scope_shaped(st.tree, st.src@, matches_view(ms@), ms@.len() as int);
                            assert(entries_view(entries@) == scope_for(*self, st.tree, src@, matches_view(ms@)));
                            assert(recorded_from(st, ts_syntax_nodes(*self, src@), src@));
                        }
                        ScopeTable { entries }
                    },
                    None => {
                        proof {
                            let q = RUST_USE_QUERY@;
                            if ts_query_compiles(*self, q) && ts_capture_index(*self, q, "use"@) is Some {
                                assert forall|k: int| 0 <= k < names@.len() implies (#[trigger] ts_capture_index(*self, q, names@[k]@)) is Some by {
                                    assert(k == 0);
                                }
                            }
                        }
                        let entries: Vec<ScopeEntry> = Vec::new();
                        assert(entries_view(entries@) =~= Seq::<ScopeEntryView>::empty());
                        ScopeTable { entries }
                    },
                }
            },
            _ => {
                let st = parse_source(*self, src);
                let entries = walked_scope_of(*self, &st);
                proof {
                    lemma_walked_scope_shaped(*self, st.tree, st.src@);
                    assert(entries_view(entries@) == scope_for(*self, st.tree, src@, Seq::<Seq<(u32, usize)>>::empty()));
                    assert(recorded_from(st, ts_syntax_nodes(*self, src@), src@));
                }
                ScopeTable { entries }
            },
        }
    }

    /// The imports of `src` given its syntax tree `_tree`: they are read from
    /// tree-sitter's parse of `src` with this grammar, which is that tree
    /// wherever `_tree` was parsed from `src` with this grammar (see
    /// `scope_of_source`).
    pub fn build_scope(&self, _tree: &tree_sitter::Tree, src: &str) -> (table: ScopeTable)
        ensures
            all_shaped(entries_view(table.entries@)),
            scope_extracted(*self, src@, entries_view(table.entries@)),
    {
        self.scope_of_source(src)
    }
}

/// Whether a grammar's reference query captures JSX elements.
fn reads_jsx_of(g: Grammar) -> (b: bool)
    ensures
        b == reads_jsx(g),
{
    match g {
        Grammar::Tsx | Grammar::JavaScript => true,
        _ => false,
    }
}

/// A language the indexer reads: its grammar decides its extensions,
/// queries and extraction rules.
pub trait LanguageSupport {
    /// The grammar of this language, for specifications.
    spec fn grammar_of(&self) -> Grammar;

    /// The grammar of this language.
    fn language(&self) -> (g: Grammar)
        ensures
            g == self.grammar_of(),
    ;

    /// The file extensions this language reads.
    fn extensions(&self) -> (r: Vec<&'static str>)
        ensures
            r@.map_values(|s: &'static str| s@) == extensions_of(self.grammar_of()),
    {
        self.language().extensions()
    }

    /// The tree-sitter language of this language.
    fn grammar(&self) -> tree_sitter::Language {
        self.language().grammar()
    }

    /// The query whose matches are this language's definitions.
    fn symbol_query(&self) -> (q: &'static str)
        ensures
            q == symbol_query_text(self.grammar_of()),
    {
        self.language().symbol_query()
    }

    /// The query whose matches are this language's call sites.
    fn reference_query(&self) -> (q: &'static str)
        ensures
            q == reference_query_text(self.grammar_of()),
    {
        self.language().reference_query()
    }

    /// The symbol kind of a definition node of kind `node_kind`.
    fn symbol_kind(&self, node_kind: &str) -> (k: String)
        requires
            symbol_kind_for(self.grammar_of(), node_kind@) is Some,
        ensures
            symbol_kind_for(self.grammar_of(), node_kind@) == Some(k@),
    {
        self.language().symbol_kind(node_kind)
    }

    /// The definitions in `src`.
    fn extract_symbols(&self, src: &str) -> (out: Vec<RawSymbol>)
        ensures
            forall|j: int|
                0 <= j < out@.len() ==> is_symbol_kind(self.grammar_of(), (#[trigger] out@[j]).kind@) && out@[j].line >= 1,
            symbols_extracted(self.grammar_of(), src@, symbols_view(out@)),
    {
        self.language().extract_symbols(src)
    }

    /// The call sites in `src`.
    fn extract_references(&self, src: &str) -> (out: Vec<RawReference>)
        ensures
            forall|j: int| 0 <= j < out@.len() ==> (#[trigger] out@[j]).line >= 1,
            references_extracted(self.grammar_of(), src@, references_view(out@)),
    {
        self.language().extract_references(src)
    }

    /// The imports of `src` given its syntax tree (see `Grammar::build_scope`).
    fn build_scope(&self, tree: &tree_sitter::Tree, src: &str) -> (table: ScopeTable)
        ensures
            all_shaped(entries_view(table.entries@)),
            scope_extracted(self.grammar_of(), src@, entries_view(table.entries@)),
    {
        self.language().build_scope(tree, src)
    }
}

/// Rust source files.
#[derive(Debug, Clone, Copy, PartialEq, Eq)]
pub struct RustSupport;

/// Python source files.
#[derive(Debug, Clone, Copy, PartialEq, Eq)]
pub struct PythonSupport;

/// TypeScript source files.
#[derive(Debug, Clone, Copy, PartialEq, Eq)]
pub struct TypeScriptSupport;

/// TSX source files: TypeScript with JSX.
#[derive(Debug, Clone, Copy, PartialEq, Eq)]
pub struct TsxSupport;

/// JavaScript source files, JSX included.
#[derive(Debug, Clone, Copy, PartialEq, Eq)]
pub struct JavaScriptSupport;

impl LanguageSupport for RustSupport {
    open spec fn grammar_of(&self) -> Grammar {
        Grammar::Rust
    }

    fn language(&self) -> (g: Grammar) {
        Grammar::Rust
    }
}

impl LanguageSupport for PythonSupport {
    open spec fn grammar_of(&self) -> Grammar {
        Grammar::Python
    }

    fn language(&self) -> (g: Grammar) {
        Grammar::Python
    }
}

impl LanguageSupport for TypeScriptSupport {
    open spec fn grammar_of(&self) -> Grammar {
        Grammar::TypeScript
    }

    fn language(&self) -> (g: Grammar) {
        Grammar::TypeScript
    }
}

impl LanguageSupport for TsxSupport {
    open spec fn grammar_of(&self) -> Grammar {
        Grammar::Tsx
    }

    fn language(&self) -> (g: Grammar) {
        Grammar::Tsx
    }
}

impl LanguageSupport for JavaScriptSupport {
    open spec fn grammar_of(&self) -> Grammar {
        Grammar::JavaScript
    }

    fn language(&self) -> (g: Grammar) {
        Grammar::JavaScript
    }
}

} // verus!
