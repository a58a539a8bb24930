use vstd::prelude::*;

use crate::lang::syntax::{ancestor_of_kinds, field_child, field_text, int_opt, node_with_id, tree_wf, SyntaxTree};
use crate::text::{join_dots, join_with, normalize_ws, normalize_ws_chars, slice_chars, string_from_chars, string_opt};

verus! {

/// `src[start..end]` with its words joined by single spaces, where that range
/// is not empty and holds a word.
pub open spec fn signature_between(src: Seq<char>, start: int, end: int) -> Option<Seq<char>> {
    if end <= start {
        None
    } else {
        let n = normalize_ws(src.subrange(start, end));
        if n.len() == 0 {
            None
        } else {
            Some(n)
        }
    }
}

/// `src[start..end]` with its words joined by single spaces, where that range
/// is not empty and holds a word.
pub fn signature_between_chars(src: &[char], start: usize, end: usize) -> (r: Option<String>)
    requires
        start <= src@.len(),
        end <= src@.len(),
    ensures
        string_opt(r) == signature_between(src@, start as int, end as int),
{
    if end <= start {
        return None;
    }
    let raw = slice_chars(src, start, end);
    let n = normalize_ws_chars(raw.as_slice());
    if n.len() == 0 {
        None
    } else {
        Some(string_from_chars(n.as_slice()))
    }
}

/// Where the text of node `i` before its body ends: the start of its `body`
/// child, or the end of the node where it has none.
pub open spec fn head_end(t: SyntaxTree, i: int) -> int {
    match field_child(t, i, "body"@) {
        Some(b) => t.nodes@[b].start_char as int,
        None => t.nodes@[i].end_char as int,
    }
}

/// The text of node `i` before its body, whitespace folded.
pub open spec fn head_signature(t: SyntaxTree, src: Seq<char>, i: int) -> Option<Seq<char>> {
    signature_between(src, t.nodes@[i].start_char as int, head_end(t, i))
}

/// Where the text of node `i` before its body ends.
pub fn head_end_of(t: &SyntaxTree, src_len: usize, i: usize) -> (e: usize)
    requires
        i < t.nodes@.len(),
        tree_wf(*t, src_len as nat),
    ensures
        e == head_end(*t, i as int),
        e <= src_len,
{
    match t.child_by_field(i, "body") {
        Some(b) => t.nodes[b].start_char,
        None => t.nodes[i].end_char,
    }
}

/// The text of node `i` before its body, whitespace folded.
pub fn head_signature_of(t: &SyntaxTree, src: &[char], i: usize) -> (r: Option<String>)
    requires
        i < t.nodes@.len(),
        tree_wf(*t, src@.len()),
    ensures
        string_opt(r) == head_signature(*t, src@, i as int),
{
    let end = head_end_of(t, src.len(), i);
    signature_between_chars(src, t.nodes[i].start_char, end)
}

/// The one-based line of a zero-based row, held at `u32::MAX` past it.
pub open spec fn line_number(row: usize) -> u32 {
    if row < u32::MAX {
        (row + 1) as u32
    } else {
        u32::MAX
    }
}

/// The one-based line of a zero-based row.
pub fn line_of_row(row: usize) -> (l: u32)
    ensures
        l == line_number(row),
{
    if row < 4294967295usize {
        (row + 1) as u32
    } else {
        u32::MAX
    }
}

/// Among the captures `k..` of a match, the node id of the first with capture
/// index `idx`.
pub open spec fn capture_from(m: Seq<(u32, usize)>, idx: u32, k: int) -> Option<usize>
    decreases m.len() - k,
{
    if k < 0 || k >= m.len() {
        None
    } else if m[k].0 == idx {
        Some(m[k].1)
    } else {
        capture_from(m, idx, k + 1)
    }
}

/// The tree node of the first capture with index `idx` in a match.
pub open spec fn capture_node(t: SyntaxTree, m: Seq<(u32, usize)>, idx: u32) -> Option<int> {
    match capture_from(m, idx, 0) {
        Some(id) => node_with_id(t, id),
        None => None,
    }
}

/// The tree node of the first capture with index `idx` in a match.
pub fn find_capture(t: &SyntaxTree, m: &Vec<(u32, usize)>, idx: u32) -> (r: Option<usize>)
    ensures
        r matches Some(k) ==> k < t.nodes@.len(),
        int_opt(r) == capture_node(*t, m@, idx),
{
    let mut k: usize = 0;
    while k < m.len()
        invariant
            k <= m@.len(),
            capture_from(m@, idx, k as int) == capture_from(m@, idx, 0),
        decreases m@.len() - k,
    {
        if m[k].0 == idx {
            return t.node_with_id(m[k].1);
        }
        k = k + 1;
    }
    None
}

/// The names of class node `c` and of the classes it is nested in (nodes of
/// one of `kinds`), outermost first; a class without a name adds none.
pub open spec fn class_chain(t: SyntaxTree, src: Seq<char>, c: int, kinds: Seq<Seq<char>>) -> Seq<Seq<char>>
    decreases c + 1,
{
    if c < 0 || c >= t.nodes@.len() {
        Seq::empty()
    } else {
        let own = match field_text(t, src, c, "name"@) {
            Some(n) => seq![n],
            None => Seq::empty(),
        };
        match ancestor_of_kinds(t, c, kinds) {
            Some(o) => if 0 <= o < c {
                class_chain(t, src, o, kinds) + own
            } else {
                own
            },
            None => own,
        }
    }
}

/// The dotted name of class node `c` within its enclosing classes, if any of
/// them has a name.
pub open spec fn class_chain_name(t: SyntaxTree, src: Seq<char>, c: int, kinds: Seq<Seq<char>>) -> Option<Seq<char>> {
    let chain = class_chain(t, src, c, kinds);
    if chain.len() == 0 {
        None
    } else {
        Some(join_with(chain, seq!['.']))
    }
}

/// The names of class node `c` and of the classes it is nested in.
fn class_chain_of(t: &SyntaxTree, src: &[char], c: usize, kinds: &Vec<&str>) -> (out: Vec<Vec<char>>)
    requires
        c < t.nodes@.len(),
        tree_wf(*t, src@.len()),
    ensures
        out@.map_values(|v: Vec<char>| v@) == class_chain(*t, src@, c as int, kinds@.map_values(|s: &str| s@)),
    decreases c,
{
    let ghost ks = kinds@.map_values(|s: &str| s@);
    let mut out: Vec<Vec<char>> = match t.ancestor_of_kinds(c, kinds) {
        Some(o) => class_chain_of(t, src, o, kinds),
        None => Vec::new(),
    };
    let ghost outer = out@.map_values(|v: Vec<char>| v@);
    match t.child_by_field(c, "name") {
        Some(nm) => {
            let n = &t.nodes[nm];
            let v = slice_chars(src, n.start_char, n.end_char);
            out.push(v);
            assert(out@.map_values(|v: Vec<char>| v@) =~= outer + seq![field_text(*t, src@, c as int, "name"@)->0]);
        },
        None => {
            assert(out@.map_values(|v: Vec<char>| v@) =~= outer + Seq::<Seq<char>>::empty());
        },
    }
    out
}

/// The dotted name of class node `c` within its enclosing classes.
pub fn class_chain_name_of(t: &SyntaxTree, src: &[char], c: usize, kinds: &Vec<&str>) -> (r: Option<String>)
    requires
        c < t.nodes@.len(),
        tree_wf(*t, src@.len()),
    ensures
        string_opt(r) == class_chain_name(*t, src@, c as int, kinds@.map_values(|s: &str| s@)),
{
    let chain = class_chain_of(t, src, c, kinds);
    if chain.len() == 0 {
        None
    } else {
        let joined = join_dots(&chain);
        Some(string_from_chars(joined.as_slice()))
    }
}

} // verus!
