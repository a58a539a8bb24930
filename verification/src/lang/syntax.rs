use vstd::prelude::*;

use crate::text::{chars_eq, chars_of, slice_chars, string_from_chars, string_opt};

verus! {

/// One node of a syntax tree: its kind, the field it fills in its parent, whether
/// it is named, where it starts and ends (in characters of the source), the row
/// it starts on, its parent and its children in order.
#[derive(Debug)]
pub struct SyntaxNode {
    pub id: usize,
    pub kind: String,
    pub field: Option<String>,
    pub named: bool,
    pub start_char: usize,
    pub end_char: usize,
    pub start_row: usize,
    pub parent: Option<usize>,
    pub children: Vec<usize>,
}

/// A syntax tree stored in preorder: node 0 is the root, every parent comes
/// before its children.
#[derive(Debug)]
pub struct SyntaxTree {
    pub nodes: Vec<SyntaxNode>,
}

/// The shape every tree keeps: parents before children, children after their
/// parent, and character ranges inside a source of `src_len` characters.
pub open spec fn tree_wf(t: SyntaxTree, src_len: nat) -> bool {
    forall|i: int|
        0 <= i < t.nodes@.len() ==> {
            &&& (#[trigger] t.nodes@[i]).parent matches Some(p) ==> p < i
            &&& forall|k: int|
                0 <= k < t.nodes@[i].children@.len() ==> i < #[trigger] t.nodes@[i].children@[k] < t.nodes@.len()
            &&& t.nodes@[i].start_char <= t.nodes@[i].end_char <= src_len
        }
}

/// The kind of node `i`.
pub open spec fn kind_of(t: SyntaxTree, i: int) -> Seq<char> {
    t.nodes@[i].kind@
}

/// Node `i` fills field `name` of its parent.
pub open spec fn has_field(t: SyntaxTree, c: int, name: Seq<char>) -> bool {
    t.nodes@[c].field matches Some(f) && f@ == name
}

/// The first child of `i` that fills field `name`.
pub open spec fn field_child(t: SyntaxTree, i: int, name: Seq<char>) -> Option<int> {
    first_child_where(t, i, name, t.nodes@[i].children@.len() as int)
}

/// The first of the first `n` children of `i` that fills field `name`.
pub open spec fn first_child_where(t: SyntaxTree, i: int, name: Seq<char>, n: int) -> Option<int>
    decreases n,
{
    if n <= 0 {
        None
    } else {
        match first_child_where(t, i, name, n - 1) {
            Some(c) => Some(c),
            None => {
                let c = t.nodes@[i].children@[n - 1] as int;
                if has_field(t, c, name) {
                    Some(c)
                } else {
                    None
                }
            },
        }
    }
}

proof fn lemma_first_child_stable(t: SyntaxTree, i: int, name: Seq<char>, k: int, m: int)
    requires
        0 <= k <= m,
        first_child_where(t, i, name, k) is Some,
    ensures
        first_child_where(t, i, name, m) == first_child_where(t, i, name, k),
    decreases m - k,
{
    if m > k {
        lemma_first_child_stable(t, i, name, k, m - 1);
    }
}

/// The children of `i` that fill field `name`, in order.
pub open spec fn field_children(t: SyntaxTree, i: int, name: Seq<char>, n: int) -> Seq<int>
    decreases n,
{
    if n <= 0 {
        Seq::empty()
    } else {
        let c = t.nodes@[i].children@[n - 1] as int;
        if has_field(t, c, name) {
            field_children(t, i, name, n - 1).push(c)
        } else {
            field_children(t, i, name, n - 1)
        }
    }
}

/// The named children among the first `n` children of `i`, in order.
pub open spec fn named_children(t: SyntaxTree, i: int, n: int) -> Seq<int>
    decreases n,
{
    if n <= 0 {
        Seq::empty()
    } else {
        let c = t.nodes@[i].children@[n - 1] as int;
        if t.nodes@[c].named {
            named_children(t, i, n - 1).push(c)
        } else {
            named_children(t, i, n - 1)
        }
    }
}

/// The named children of `i`, in order.
pub open spec fn all_named_children(t: SyntaxTree, i: int) -> Seq<int> {
    named_children(t, i, t.nodes@[i].children@.len() as int)
}

/// The first named child of `i`.
pub open spec fn first_named_child(t: SyntaxTree, i: int) -> Option<int> {
    let named = all_named_children(t, i);
    if named.len() > 0 {
        Some(named[0])
    } else {
        None
    }
}

/// The source text of node `i`.
pub open spec fn text_of(t: SyntaxTree, src: Seq<char>, i: int) -> Seq<char> {
    src.subrange(t.nodes@[i].start_char as int, t.nodes@[i].end_char as int)
}

/// The one-based line node `i` starts on.
pub open spec fn line_of(t: SyntaxTree, i: int) -> int {
    t.nodes@[i].start_row + 1
}

/// An optional index as an integer.
pub open spec fn int_opt(o: Option<usize>) -> Option<int> {
    match o {
        Some(a) => Some(a as int),
        None => None,
    }
}

/// From `cur` upwards (the node itself, then its ancestors), the first node
/// that satisfies `pred`.
pub open spec fn search_up(t: SyntaxTree, cur: Option<usize>, pred: spec_fn(int) -> bool) -> Option<int>
    decreases (match cur {
        Some(a) => a as int + 1,
        None => 0int,
    }),
{
    match cur {
        None => None,
        Some(a) => {
            if a >= t.nodes@.len() {
                None
            } else if pred(a as int) {
                Some(a as int)
            } else {
                match t.nodes@[a as int].parent {
                    Some(p) => if p < a {
                        search_up(t, Some(p), pred)
                    } else {
                        None
                    },
                    None => None,
                }
            }
        },
    }
}

/// What the upward search finds is the start node or above it.
pub proof fn lemma_search_up_below(t: SyntaxTree, cur: Option<usize>, pred: spec_fn(int) -> bool)
    ensures
        search_up(t, cur, pred) matches Some(o) ==> (cur matches Some(a) && 0 <= o <= a && o < t.nodes@.len()),
    decreases (match cur {
        Some(a) => a as int + 1,
        None => 0int,
    }),
{
    if let Some(a) = cur {
        if a < t.nodes@.len() && !pred(a as int) {
            if let Some(p) = t.nodes@[a as int].parent {
                if p < a {
                    lemma_search_up_below(t, Some(p), pred);
                }
            }
        }
    }
}

/// Node `a` has one of the kinds in `kinds`.
pub open spec fn kind_in(t: SyntaxTree, a: int, kinds: Seq<Seq<char>>) -> bool {
    kinds.contains(kind_of(t, a))
}

/// The nearest proper ancestor of `i` whose kind is one of `kinds`.
pub open spec fn ancestor_of_kinds(t: SyntaxTree, i: int, kinds: Seq<Seq<char>>) -> Option<int> {
    search_up(t, t.nodes@[i].parent, |a: int| kind_in(t, a, kinds))
}

/// Among children `k..` of `i`, the first of kind `kind`.
pub open spec fn child_of_kind_from(t: SyntaxTree, i: int, kind: Seq<char>, k: int) -> Option<int>
    decreases t.nodes@[i].children@.len() - k,
{
    if k < 0 || k >= t.nodes@[i].children@.len() {
        None
    } else if kind_of(t, t.nodes@[i].children@[k] as int) == kind {
        Some(t.nodes@[i].children@[k] as int)
    } else {
        child_of_kind_from(t, i, kind, k + 1)
    }
}

/// The first child of `i` of kind `kind`.
pub open spec fn child_of_kind(t: SyntaxTree, i: int, kind: Seq<char>) -> Option<int> {
    child_of_kind_from(t, i, kind, 0)
}

/// The text of the child of `i` filling field `name`.
pub open spec fn field_text(t: SyntaxTree, src: Seq<char>, i: int, name: Seq<char>) -> Option<Seq<char>> {
    match field_child(t, i, name) {
        Some(c) => Some(text_of(t, src, c)),
        None => None,
    }
}

/// Among nodes `k..`, the first with id `id`.
pub open spec fn node_with_id_from(t: SyntaxTree, id: usize, k: int) -> Option<int>
    decreases t.nodes@.len() - k,
{
    if k < 0 || k >= t.nodes@.len() {
        None
    } else if t.nodes@[k].id == id {
        Some(k)
    } else {
        node_with_id_from(t, id, k + 1)
    }
}

/// The first node with id `id`.
pub open spec fn node_with_id(t: SyntaxTree, id: usize) -> Option<int> {
    node_with_id_from(t, id, 0)
}

impl SyntaxTree {
    /// The nearest proper ancestor of `i` whose kind is one of `kinds`.
    pub fn ancestor_of_kinds(&self, i: usize, kinds: &Vec<&str>) -> (r: Option<usize>)
        requires
            i < self.nodes@.len(),
            exists|n: nat| tree_wf(*self, n),
        ensures
            r matches Some(a) ==> a < i,
            int_opt(r) == ancestor_of_kinds(*self, i as int, kinds@.map_values(|s: &str| s@)),
    {
        proof {
            let ghost n0 = choose|n: nat| tree_wf(*self, n);
            assert(tree_wf(*self, n0));
            lemma_search_up_below(*self, self.nodes@[i as int].parent, |a: int| kind_in(*self, a, kinds@.map_values(|s: &str| s@)));
        }
        let ghost ks = kinds@.map_values(|s: &str| s@);
        let ghost pred = |a: int| kind_in(*self, a, ks);
        let ghost n = choose|n: nat| tree_wf(*self, n);
        let mut cur = self.nodes[i].parent;
        while true
            invariant
                tree_wf(*self, n),
                ks == kinds@.map_values(|s: &str| s@),
                pred == (|a: int| kind_in(*self, a, ks)),
                search_up(*self, cur, pred) == ancestor_of_kinds(*self, i as int, ks),
                ancestor_of_kinds(*self, i as int, ks) matches Some(o) ==> o < i,
                cur matches Some(a) ==> a < self.nodes@.len(),
            decreases (match cur {
                Some(a) => a as int + 1,
                None => 0int,
            }),
        {
            let a = match cur {
                Some(a) => a,
                None => {
                    return None;
                },
            };
            let mut k: usize = 0;
            let mut hit = false;
            while k < kinds.len()
                invariant
                    a < self.nodes@.len(),
                    k <= kinds@.len(),
                    ks == kinds@.map_values(|s: &str| s@),
                    hit == (exists|j: int| 0 <= j < k && ks[j] == kind_of(*self, a as int)),
                decreases kinds@.len() - k,
            {
                assert(ks[k as int] == kinds@[k as int]@);
                let ghost before = hit;
                if self.kind_is(a, kinds[k]) {
                    hit = true;
                }
                proof {
                    if hit && !before {
                        assert(ks[k as int] == kind_of(*self, a as int));
                    }
                    if !hit {
                        assert forall|j: int| 0 <= j < k + 1 implies ks[j] != kind_of(*self, a as int) by {
                            if j < k {
                                assert(!(0 <= j < k && ks[j] == kind_of(*self, a as int)));
                            }
                        }
                    }
                }
                k = k + 1;
            }
            proof {
                if hit {
                    let j = choose|j: int| 0 <= j < k && ks[j] == kind_of(*self, a as int);
                    assert(ks.contains(kind_of(*self, a as int)));
                } else {
                    if ks.contains(kind_of(*self, a as int)) {
                        let j = choose|j: int| 0 <= j < ks.len() && ks[j] == kind_of(*self, a as int);
                        assert(false);
                    }
                }
            }
            if hit {
                return Some(a);
            }
            cur = self.nodes[a].parent;
        }
        None
    }

    /// The first child of `i` of kind `kind`.
    pub fn child_of_kind(&self, i: usize, kind: &str) -> (r: Option<usize>)
        requires
            i < self.nodes@.len(),
            exists|n: nat| tree_wf(*self, n),
        ensures
            r matches Some(c) ==> c < self.nodes@.len(),
            int_opt(r) == child_of_kind(*self, i as int, kind@),
    {
        let ghost n = choose|n: nat| tree_wf(*self, n);
        let children = &self.nodes[i].children;
        let mut k: usize = 0;
        while k < children.len()
            invariant
                i < self.nodes@.len(),
                children == &self.nodes@[i as int].children,
                k <= children@.len(),
                tree_wf(*self, n),
                child_of_kind_from(*self, i as int, kind@, k as int) == child_of_kind(*self, i as int, kind@),
            decreases children@.len() - k,
        {
            let c = children[k];
            proof {
                assert(i < c < self.nodes@.len());
            }
            if self.kind_is(c, kind) {
                return Some(c);
            }
            k = k + 1;
        }
        None
    }

    /// The text of the child of `i` filling field `name`.
    pub fn field_text(&self, src: &[char], i: usize, name: &str) -> (r: Option<String>)
        requires
            i < self.nodes@.len(),
            tree_wf(*self, src@.len()),
        ensures
            string_opt(r) == field_text(*self, src@, i as int, name@),
    {
        match self.child_by_field(i, name) {
            Some(c) => Some(self.text(src, c)),
            None => None,
        }
    }

    /// The first node with id `id`.
    pub fn node_with_id(&self, id: usize) -> (r: Option<usize>)
        ensures
            r matches Some(k) ==> k < self.nodes@.len(),
            int_opt(r) == node_with_id(*self, id),
    {
        let mut k: usize = 0;
        while k < self.nodes.len()
            invariant
                k <= self.nodes@.len(),
                node_with_id_from(*self, id, k as int) == node_with_id(*self, id),
            decreases self.nodes@.len() - k,
        {
            if self.nodes[k].id == id {
                return Some(k);
            }
            k = k + 1;
        }
        None
    }
    /// Whether node `i` has kind `kind`.
    pub fn kind_is(&self, i: usize, kind: &str) -> (b: bool)
        requires
            i < self.nodes@.len(),
        ensures
            b == (kind_of(*self, i as int) == kind@),
    {
        let a = chars_of(self.nodes[i].kind.as_str());
        let b = chars_of(kind);
        chars_eq(a.as_slice(), b.as_slice())
    }

    /// The first child of `i` filling field `name`.
    pub fn child_by_field(&self, i: usize, name: &str) -> (c: Option<usize>)
        requires
            i < self.nodes@.len(),
            exists|n: nat| tree_wf(*self, n),
        ensures
            c matches Some(c) ==> field_child(*self, i as int, name@) == Some(c as int) && i < c < self.nodes@.len(),
            c is None ==> field_child(*self, i as int, name@) is None,
    {
        let want = chars_of(name);
        let ghost n = choose|n: nat| tree_wf(*self, n);
        let children = &self.nodes[i].children;
        let mut k: usize = 0;
        while k < children.len()
            invariant
                i < self.nodes@.len(),
                children == &self.nodes@[i as int].children,
                k <= children@.len(),
                want@ == name@,
                tree_wf(*self, n),
                first_child_where(*self, i as int, name@, k as int) is None,
            decreases children@.len() - k,
        {
            let c = children[k];
            proof {
                assert(i < c < self.nodes@.len());
            }
            let matches = match &self.nodes[c].field {
                Some(f) => {
                    let fc = chars_of(f.as_str());
                    chars_eq(fc.as_slice(), want.as_slice())
                },
                None => false,
            };
            if matches {
                proof {
                    assert(has_field(*self, c as int, name@));
                    assert(first_child_where(*self, i as int, name@, k + 1) == Some(c as int));
                    lemma_first_child_stable(*self, i as int, name@, k + 1, children@.len() as int);
                }
                return Some(c);
            }
            k = k + 1;
        }
        None
    }

    /// The children of `i` filling field `name`, in order.
    pub fn children_by_field(&self, i: usize, name: &str) -> (cs: Vec<usize>)
        requires
            i < self.nodes@.len(),
            exists|n: nat| tree_wf(*self, n),
        ensures
            cs@.map_values(|c: usize| c as int) == field_children(*self, i as int, name@, self.nodes@[i as int].children@.len() as int),
            forall|k: int| 0 <= k < cs@.len() ==> i < #[trigger] cs@[k] < self.nodes@.len(),
    {
        let want = chars_of(name);
        let ghost n = choose|n: nat| tree_wf(*self, n);
        let children = &self.nodes[i].children;
        let mut out: Vec<usize> = Vec::new();
        let mut k: usize = 0;
        while k < children.len()
            invariant
                i < self.nodes@.len(),
                children == &self.nodes@[i as int].children,
                k <= children@.len(),
                want@ == name@,
                tree_wf(*self, n),
                out@.map_values(|c: usize| c as int) == field_children(*self, i as int, name@, k as int),
                forall|j: int| 0 <= j < out@.len() ==> i < #[trigger] out@[j] < self.nodes@.len(),
            decreases children@.len() - k,
        {
            let c = children[k];
            proof {
                assert(i < c < self.nodes@.len());
            }
            let matches = match &self.nodes[c].field {
                Some(f) => {
                    let fc = chars_of(f.as_str());
                    chars_eq(fc.as_slice(), want.as_slice())
                },
                None => false,
            };
            let ghost before = out@;
            if matches {
                out.push(c);
                proof {
                    assert(out@.map_values(|c: usize| c as int) =~= before.map_values(|c: usize| c as int).push(c as int));
                }
            }
            k = k + 1;
        }
        out
    }

    /// The named children of `i`, in order.
    pub fn named_children_of(&self, i: usize) -> (cs: Vec<usize>)
        requires
            i < self.nodes@.len(),
            exists|n: nat| tree_wf(*self, n),
        ensures
            cs@.map_values(|c: usize| c as int) == all_named_children(*self, i as int),
            forall|k: int| 0 <= k < cs@.len() ==> i < #[trigger] cs@[k] < self.nodes@.len(),
    {
        let ghost n = choose|n: nat| tree_wf(*self, n);
        let children = &self.nodes[i].children;
        let mut out: Vec<usize> = Vec::new();
        let mut k: usize = 0;
        while k < children.len()
            invariant
                i < self.nodes@.len(),
                children == &self.nodes@[i as int].children,
                k <= children@.len(),
                tree_wf(*self, n),
                out@.map_values(|c: usize| c as int) == named_children(*self, i as int, k as int),
                forall|j: int| 0 <= j < out@.len() ==> i < #[trigger] out@[j] < self.nodes@.len(),
            decreases children@.len() - k,
        {
            let c = children[k];
            proof {
                assert(i < c < self.nodes@.len());
            }
            let ghost before = out@;
            if self.nodes[c].named {
                out.push(c);
                proof {
                    assert(out@.map_values(|c: usize| c as int) =~= before.map_values(|c: usize| c as int).push(c as int));
                }
            }
            k = k + 1;
        }
        out
    }

    /// The first named child of `i`.
    pub fn named_child0(&self, i: usize) -> (c: Option<usize>)
        requires
            i < self.nodes@.len(),
            exists|n: nat| tree_wf(*self, n),
        ensures
            c matches Some(c) ==> first_named_child(*self, i as int) == Some(c as int) && i < c < self.nodes@.len(),
            c is None ==> first_named_child(*self, i as int) is None,
    {
        let named = self.named_children_of(i);
        if named.len() > 0 {
            proof {
                assert(named@.map_values(|c: usize| c as int)[0] == named@[0] as int);
            }
            Some(named[0])
        } else {
            None
        }
    }

    /// The source text of node `i` as characters.
    pub fn text_chars(&self, src: &[char], i: usize) -> (out: Vec<char>)
        requires
            i < self.nodes@.len(),
            tree_wf(*self, src@.len()),
        ensures
            out@ == text_of(*self, src@, i as int),
    {
        slice_chars(src, self.nodes[i].start_char, self.nodes[i].end_char)
    }

    /// The source text of node `i`.
    pub fn text(&self, src: &[char], i: usize) -> (s: String)
        requires
            i < self.nodes@.len(),
            tree_wf(*self, src@.len()),
        ensures
            s@ == text_of(*self, src@, i as int),
    {
        let node = &self.nodes[i];
        let cs = slice_chars(src, node.start_char, node.end_char);
        string_from_chars(cs.as_slice())
    }
}

} // verus!
