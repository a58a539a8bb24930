use vstd::prelude::*;

use crate::lang::common::{head_signature, head_signature_of};
use crate::lang::support::{all_shaped, entries_view, lemma_shaped_concat, push_entry, ImportKind, ScopeEntry, ScopeEntryView};
use crate::lang::syntax::{
    all_named_children, ancestor_of_kinds, child_of_kind, field_child, field_text, int_opt,
    kind_of, text_of, tree_wf, SyntaxTree,
};
use crate::text::{occurs_at, slice_chars, str_eq, string_from_chars, string_opt};

verus! {

/// The definitions a Rust file is searched for.
pub const RUST_SYMBOL_QUERY: &'static str = "
(function_item
  name: (identifier) @name) @definition

(struct_item
  name: (type_identifier) @name) @definition

(enum_item
  name: (type_identifier) @name) @definition

(trait_item
  name: (type_identifier) @name) @definition
";

/// The call sites a Rust file is searched for.
pub const RUST_REFERENCE_QUERY: &'static str = "
(call_expression
  function: (identifier) @callee)

(call_expression
  function: (field_expression
    field: (field_identifier) @callee))
";

/// The `use` declarations of a Rust file.
pub const RUST_USE_QUERY: &'static str = "(use_declaration) @use";

/// The symbol kind of a captured Rust definition node.
pub open spec fn rust_symbol_kind(kind: Seq<char>) -> Option<Seq<char>> {
    if kind == "function_item"@ {
        Some("function"@)
    } else if kind == "struct_item"@ {
        Some("struct"@)
    } else if kind == "enum_item"@ {
        Some("enum"@)
    } else if kind == "trait_item"@ {
        Some("trait"@)
    } else {
        None
    }
}

/// The symbol kind of a captured Rust definition node.
pub fn rust_symbol_kind_of(kind: &str) -> (r: Option<String>)
    ensures
        string_opt(r) == rust_symbol_kind(kind@),
{
    if str_eq(kind, "function_item") {
        Some(String::from_str("function"))
    } else if str_eq(kind, "struct_item") {
        Some(String::from_str("struct"))
    } else if str_eq(kind, "enum_item") {
        Some(String::from_str("enum"))
    } else if str_eq(kind, "trait_item") {
        Some(String::from_str("trait"))
    } else {
        None
    }
}

/// A Rust definition's signature: its text up to the body, whitespace folded.
pub open spec fn rust_signature(t: SyntaxTree, src: Seq<char>, i: int) -> Option<Seq<char>> {
    head_signature(t, src, i)
}

/// A Rust item is public when it carries a visibility modifier.
pub open spec fn rust_is_public(t: SyntaxTree, i: int) -> bool {
    child_of_kind(t, i, "visibility_modifier"@) is Some
}

/// Whether a Rust item carries a visibility modifier.
pub fn rust_is_public_at(t: &SyntaxTree, i: usize) -> (b: bool)
    requires
        i < t.nodes@.len(),
        exists|n: nat| tree_wf(*t, n),
    ensures
        b == rust_is_public(*t, i as int),
{
    t.child_of_kind(i, "visibility_modifier").is_some()
}

/// The name of the function a Rust node sits in.
pub open spec fn rust_enclosing(t: SyntaxTree, src: Seq<char>, i: int) -> Option<Seq<char>> {
    match ancestor_of_kinds(t, i, seq!["function_item"@]) {
        Some(a) => field_text(t, src, a, "name"@),
        None => None,
    }
}

/// The name of the function a Rust node sits in.
pub fn rust_enclosing_of(t: &SyntaxTree, src: &[char], i: usize) -> (r: Option<String>)
    requires
        i < t.nodes@.len(),
        tree_wf(*t, src@.len()),
    ensures
        string_opt(r) == rust_enclosing(*t, src@, i as int),
{
    let kinds: Vec<&str> = vec!["function_item"];
    assert(kinds@.map_values(|s: &str| s@) =~= seq!["function_item"@]);
    match t.ancestor_of_kinds(i, &kinds) {
        Some(a) => t.field_text(src, a, "name"),
        None => None,
    }
}

/// The short name of a Rust type node: generics, references and paths
/// stripped.
pub open spec fn rust_type_name(t: SyntaxTree, src: Seq<char>, i: int) -> Option<Seq<char>>
    decreases t.nodes@.len() - i,
{
    if i < 0 || i >= t.nodes@.len() {
        None
    } else if kind_of(t, i) == "type_identifier"@ {
        Some(text_of(t, src, i))
    } else if kind_of(t, i) == "generic_type"@ || kind_of(t, i) == "reference_type"@ {
        match field_child(t, i, "type"@) {
            Some(c) => if i < c < t.nodes@.len() {
                rust_type_name(t, src, c)
            } else {
                None
            },
            None => None,
        }
    } else if kind_of(t, i) == "scoped_type_identifier"@ {
        match field_child(t, i, "name"@) {
            Some(c) => if i < c < t.nodes@.len() {
                rust_type_name(t, src, c)
            } else {
                None
            },
            None => None,
        }
    } else {
        None
    }
}

/// The short name of a Rust type node.
pub fn rust_type_name_of(t: &SyntaxTree, src: &[char], i: usize) -> (r: Option<String>)
    requires
        i < t.nodes@.len(),
        tree_wf(*t, src@.len()),
    ensures
        string_opt(r) == rust_type_name(*t, src@, i as int),
    decreases t.nodes@.len() - i,
{
    if t.kind_is(i, "type_identifier") {
        Some(t.text(src, i))
    } else if t.kind_is(i, "generic_type") || t.kind_is(i, "reference_type") {
        match t.child_by_field(i, "type") {
            Some(c) => rust_type_name_of(t, src, c),
            None => None,
        }
    } else if t.kind_is(i, "scoped_type_identifier") {
        match t.child_by_field(i, "name") {
            Some(c) => rust_type_name_of(t, src, c),
            None => None,
        }
    } else {
        None
    }
}

/// The type a Rust definition belongs to: that of the `impl` block it sits in.
pub open spec fn rust_owner(t: SyntaxTree, src: Seq<char>, i: int) -> Option<Seq<char>> {
    match ancestor_of_kinds(t, i, seq!["impl_item"@]) {
        Some(a) => match field_child(t, a, "type"@) {
            Some(ty) => rust_type_name(t, src, ty),
            None => None,
        },
        None => None,
    }
}

/// The type a Rust definition belongs to.
pub fn rust_owner_of(t: &SyntaxTree, src: &[char], i: usize) -> (r: Option<String>)
    requires
        i < t.nodes@.len(),
        tree_wf(*t, src@.len()),
    ensures
        string_opt(r) == rust_owner(*t, src@, i as int),
{
    let kinds: Vec<&str> = vec!["impl_item"];
    assert(kinds@.map_values(|s: &str| s@) =~= seq!["impl_item"@]);
    match t.ancestor_of_kinds(i, &kinds) {
        Some(a) => match t.child_by_field(a, "type") {
            Some(ty) => rust_type_name_of(t, src, ty),
            None => None,
        },
        None => None,
    }
}

/// A Rust definition's signature.
pub fn rust_signature_of(t: &SyntaxTree, src: &[char], i: usize) -> (r: Option<String>)
    requires
        i < t.nodes@.len(),
        tree_wf(*t, src@.len()),
    ensures
        string_opt(r) == rust_signature(*t, src@, i as int),
{
    head_signature_of(t, src, i)
}

/// The path a `use` path node spells, segments joined by `::`.
pub open spec fn path_text(t: SyntaxTree, src: Seq<char>, i: int) -> Option<Seq<char>>
    decreases t.nodes@.len() - i,
{
    if i < 0 || i >= t.nodes@.len() {
        None
    } else if kind_of(t, i) == "identifier"@ || kind_of(t, i) == "crate"@ || kind_of(t, i) == "self"@
        || kind_of(t, i) == "super"@ {
        Some(text_of(t, src, i))
    } else if kind_of(t, i) == "scoped_identifier"@ {
        match (field_child(t, i, "path"@), field_child(t, i, "name"@)) {
            (Some(p), Some(n)) => if i < p < t.nodes@.len() && i < n < t.nodes@.len() {
                match (path_text(t, src, p), path_text(t, src, n)) {
                    (Some(ps), Some(ns)) => Some(ps + "::"@ + ns),
                    _ => None,
                }
            } else {
                None
            },
            _ => None,
        }
    } else {
        None
    }
}

/// `s` followed by `::` and `t`.
fn join_colons(s: &[char], t: &[char]) -> (out: Vec<char>)
    ensures
        out@ == s@ + "::"@ + t@,
{
    proof {
        reveal_strlit("::");
    }
    let mut out: Vec<char> = Vec::new();
    let mut k: usize = 0;
    while k < s.len()
        invariant
            k <= s@.len(),
            out@ == s@.take(k as int),
        decreases s@.len() - k,
    {
        out.push(s[k]);
        assert(s@.take((k + 1) as int) =~= s@.take(k as int).push(s@[k as int]));
        k = k + 1;
    }
    out.push(':');
    out.push(':');
    let mut j: usize = 0;
    while j < t.len()
        invariant
            j <= t@.len(),
            out@ == s@ + "::"@ + t@.take(j as int),
        decreases t@.len() - j,
    {
        out.push(t[j]);
        assert(t@.take((j + 1) as int) =~= t@.take(j as int).push(t@[j as int]));
        j = j + 1;
    }
    assert(s@.take(s@.len() as int) =~= s@);
    assert(t@.take(t@.len() as int) =~= t@);
    out
}

/// The path a `use` path node spells.
pub fn path_text_of(t: &SyntaxTree, src: &[char], i: usize) -> (r: Option<Vec<char>>)
    requires
        i < t.nodes@.len(),
        tree_wf(*t, src@.len()),
    ensures
        r matches Some(v) ==> path_text(*t, src@, i as int) == Some(v@),
        r is None ==> path_text(*t, src@, i as int) is None,
    decreases t.nodes@.len() - i,
{
    if t.kind_is(i, "identifier") || t.kind_is(i, "crate") || t.kind_is(i, "self") || t.kind_is(i, "super") {
        let n = &t.nodes[i];
        Some(slice_chars(src, n.start_char, n.end_char))
    } else if t.kind_is(i, "scoped_identifier") {
        let p = match t.child_by_field(i, "path") {
            Some(p) => p,
            None => {
                return None;
            },
        };
        let n = match t.child_by_field(i, "name") {
            Some(n) => n,
            None => {
                return None;
            },
        };
        let ps = match path_text_of(t, src, p) {
            Some(ps) => ps,
            None => {
                return None;
            },
        };
        let ns = match path_text_of(t, src, n) {
            Some(ns) => ns,
            None => {
                return None;
            },
        };
        Some(join_colons(ps.as_slice(), ns.as_slice()))
    } else {
        None
    }
}

/// Counting down from `k`, the last place `::` occurs in `s`.
pub open spec fn last_colons_from(s: Seq<char>, k: int) -> Option<int>
    decreases k + 1,
{
    if k < 0 {
        None
    } else if occurs_at(s, "::"@, k) {
        Some(k)
    } else {
        last_colons_from(s, k - 1)
    }
}

/// The last `::`-separated segment of a path (the whole path where it has no
/// `::`).
pub open spec fn last_segment(s: Seq<char>) -> Seq<char> {
    match last_colons_from(s, s.len() - 2) {
        Some(k) => s.subrange(k + 2, s.len() as int),
        None => s,
    }
}

/// The last `::`-separated segment of a path.
pub fn last_segment_chars(s: &[char]) -> (out: Vec<char>)
    ensures
        out@ == last_segment(s@),
{
    proof {
        reveal_strlit("::");
    }
    if s.len() < 2 {
        assert(last_colons_from(s@, s@.len() - 2) is None);
        return slice_chars(s, 0, s.len());
    }
    let mut k: usize = s.len() - 2;
    loop
        invariant
            k + 2 <= s@.len(),
            last_colons_from(s@, k as int) == last_colons_from(s@, s@.len() - 2),
        decreases k,
    {
        proof {
            reveal_strlit("::");
        }
        if s[k] == ':' && s[k + 1] == ':' {
            assert(s@.subrange(k as int, k + 2) =~= "::"@);
            return slice_chars(s, k + 2, s.len());
        }
        proof {
            if occurs_at(s@, "::"@, k as int) {
                assert(s@.subrange(k as int, k + 2)[0] == s@[k as int]);
                assert(s@.subrange(k as int, k + 2)[1] == s@[k + 1]);
            }
        }
        if k == 0 {
            assert(last_colons_from(s@, -1) is None);
            return slice_chars(s, 0, s.len());
        }
        k = k - 1;
    }
}

/// `prefix::rel`, or `prefix` where `rel` is empty, or `rel` with no prefix.
pub open spec fn join_path(prefix: Option<Seq<char>>, rel: Seq<char>) -> Seq<char> {
    match prefix {
        Some(p) => if rel.len() > 0 {
            p + "::"@ + rel
        } else {
            p
        },
        None => rel,
    }
}

/// An optional slice as characters.
pub open spec fn slice_opt(p: Option<&[char]>) -> Option<Seq<char>> {
    match p {
        Some(s) => Some(s@),
        None => None,
    }
}

/// `prefix::rel`, or `prefix` where `rel` is empty, or `rel` with no prefix.
pub fn join_path_chars(prefix: Option<&[char]>, rel: &[char]) -> (out: Vec<char>)
    ensures
        out@ == join_path(slice_opt(prefix), rel@),
{
    match prefix {
        Some(p) => if rel.len() > 0 {
            join_colons(p, rel)
        } else {
            slice_chars(p, 0, p.len())
        },
        None => slice_chars(rel, 0, rel.len()),
    }
}

/// A plain import, or a re-export where the `use` is public.
pub open spec fn direct_kind(is_reexport: bool, aliased: bool) -> ImportKind {
    if is_reexport {
        ImportKind::Reexport { aliased }
    } else {
        ImportKind::Direct { aliased }
    }
}

fn direct_kind_of(is_reexport: bool, aliased: bool) -> (k: ImportKind)
    ensures
        k == direct_kind(is_reexport, aliased),
{
    if is_reexport {
        ImportKind::Reexport { aliased }
    } else {
        ImportKind::Direct { aliased }
    }
}

/// The prefix itself, or the empty path.
pub open spec fn prefix_or_empty(prefix: Option<Seq<char>>) -> Seq<char> {
    match prefix {
        Some(p) => p,
        None => Seq::empty(),
    }
}

/// The entries a `use` tree node brings into scope under `prefix`.
pub open spec fn use_tree_entries(
    t: SyntaxTree,
    src: Seq<char>,
    i: int,
    prefix: Option<Seq<char>>,
    rx: bool,
) -> Seq<ScopeEntryView>
    decreases t.nodes@.len() - i, 0int,
{
    if i < 0 || i >= t.nodes@.len() {
        Seq::empty()
    } else if kind_of(t, i) == "identifier"@ {
        let name = text_of(t, src, i);
        seq![ScopeEntryView { local_name: Some(name), source_path: join_path(prefix, name), kind: direct_kind(rx, false) }]
    } else if kind_of(t, i) == "self"@ {
        match prefix {
            Some(p) => seq![ScopeEntryView { local_name: Some(last_segment(p)), source_path: p, kind: direct_kind(rx, false) }],
            None => Seq::empty(),
        }
    } else if kind_of(t, i) == "scoped_identifier"@ {
        match path_text(t, src, i) {
            Some(rel) => seq![ScopeEntryView { local_name: Some(last_segment(rel)), source_path: join_path(prefix, rel), kind: direct_kind(rx, false) }],
            None => Seq::empty(),
        }
    } else if kind_of(t, i) == "use_as_clause"@ {
        match (field_child(t, i, "path"@), field_child(t, i, "alias"@)) {
            (Some(p), Some(a)) => match path_text(t, src, p) {
                Some(rel) => seq![ScopeEntryView { local_name: Some(text_of(t, src, a)), source_path: join_path(prefix, rel), kind: direct_kind(rx, true) }],
                None => Seq::empty(),
            },
            _ => Seq::empty(),
        }
    } else if kind_of(t, i) == "scoped_use_list"@ {
        let combined = match field_child(t, i, "path"@) {
            Some(p) => match path_text(t, src, p) {
                Some(rel) => join_path(prefix, rel),
                None => prefix_or_empty(prefix),
            },
            None => prefix_or_empty(prefix),
        };
        match field_child(t, i, "list"@) {
            Some(l) => if i < l < t.nodes@.len() {
                use_list_entries(t, src, l, all_named_children(t, l), Some(combined), rx, all_named_children(t, l).len() as int)
            } else {
                Seq::empty()
            },
            None => Seq::empty(),
        }
    } else if kind_of(t, i) == "use_list"@ {
        use_list_entries(t, src, i, all_named_children(t, i), prefix, rx, all_named_children(t, i).len() as int)
    } else if kind_of(t, i) == "use_wildcard"@ {
        let named = all_named_children(t, i);
        let source = if named.len() > 0 {
            match path_text(t, src, named[0]) {
                Some(rel) => join_path(prefix, rel),
                None => prefix_or_empty(prefix),
            }
        } else {
            prefix_or_empty(prefix)
        };
        seq![ScopeEntryView { local_name: None, source_path: source, kind: ImportKind::Wildcard }]
    } else {
        Seq::empty()
    }
}

/// The entries of the first `n` items of a use list node `l`, in order.
pub open spec fn use_list_entries(
    t: SyntaxTree,
    src: Seq<char>,
    l: int,
    items: Seq<int>,
    prefix: Option<Seq<char>>,
    rx: bool,
    n: int,
) -> Seq<ScopeEntryView>
    decreases t.nodes@.len() - l - 1, n,
{
    if n <= 0 || n > items.len() || l < 0 || l >= t.nodes@.len() {
        Seq::empty()
    } else if l < items[n - 1] < t.nodes@.len() {
        use_list_entries(t, src, l, items, prefix, rx, n - 1) + use_tree_entries(t, src, items[n - 1], prefix, rx)
    } else {
        use_list_entries(t, src, l, items, prefix, rx, n - 1)
    }
}

/// The prefix itself, or the empty path.
fn prefix_or_empty_chars(prefix: Option<&[char]>) -> (out: Vec<char>)
    ensures
        out@ == prefix_or_empty(slice_opt(prefix)),
{
    match prefix {
        Some(p) => slice_chars(p, 0, p.len()),
        None => Vec::new(),
    }
}

/// Adds the entries a `use` tree node brings into scope under `prefix`.
pub fn collect_use_tree(
    t: &SyntaxTree,
    src: &[char],
    i: usize,
    prefix: Option<&[char]>,
    rx: bool,
    entries: &mut Vec<ScopeEntry>,
)
    requires
        i < t.nodes@.len(),
        tree_wf(*t, src@.len()),
    ensures
        entries_view(final(entries)@) == entries_view(old(entries)@) + use_tree_entries(*t, src@, i as int, slice_opt(prefix), rx),
    decreases t.nodes@.len() - i, 0int,
{
    let ghost before = entries_view(entries@);
    let ghost expect = use_tree_entries(*t, src@, i as int, slice_opt(prefix), rx);
    if t.kind_is(i, "identifier") {
        let name = t.text_chars(src, i);
        let path = join_path_chars(prefix, name.as_slice());
        let e = ScopeEntry {
            local_name: Some(string_from_chars(name.as_slice())),
            source_path: string_from_chars(path.as_slice()),
            kind: direct_kind_of(rx, false),
        };
        push_entry(entries, e);
        assert(entries_view(entries@) =~= before + expect);
    } else if t.kind_is(i, "self") {
        if let Some(p) = prefix {
            let local = last_segment_chars(p);
            let e = ScopeEntry {
                local_name: Some(string_from_chars(local.as_slice())),
                source_path: string_from_chars(p),
                kind: direct_kind_of(rx, false),
            };
            push_entry(entries, e);
            assert(entries_view(entries@) =~= before + expect);
        } else {
            assert(entries_view(entries@) =~= before + expect);
        }
    } else if t.kind_is(i, "scoped_identifier") {
        if let Some(rel) = path_text_of(t, src, i) {
            let local = last_segment_chars(rel.as_slice());
            let path = join_path_chars(prefix, rel.as_slice());
            let e = ScopeEntry {
                local_name: Some(string_from_chars(local.as_slice())),
                source_path: string_from_chars(path.as_slice()),
                kind: direct_kind_of(rx, false),
            };
            push_entry(entries, e);
            assert(entries_view(entries@) =~= before + expect);
        } else {
            assert(entries_view(entries@) =~= before + expect);
        }
    } else if t.kind_is(i, "use_as_clause") {
        let p = t.child_by_field(i, "path");
        let a = t.child_by_field(i, "alias");
        if let (Some(p), Some(a)) = (p, a) {
            if let Some(rel) = path_text_of(t, src, p) {
                let path = join_path_chars(prefix, rel.as_slice());
                let e = ScopeEntry {
                    local_name: Some(t.text(src, a)),
                    source_path: string_from_chars(path.as_slice()),
                    kind: direct_kind_of(rx, true),
                };
                push_entry(entries, e);
                assert(entries_view(entries@) =~= before + expect);
            } else {
                assert(entries_view(entries@) =~= before + expect);
            }
        } else {
            assert(entries_view(entries@) =~= before + expect);
        }
    } else if t.kind_is(i, "scoped_use_list") {
        let combined = match t.child_by_field(i, "path") {
            Some(p) => match path_text_of(t, src, p) {
                Some(rel) => join_path_chars(prefix, rel.as_slice()),
                None => prefix_or_empty_chars(prefix),
            },
            None => prefix_or_empty_chars(prefix),
        };
        match t.child_by_field(i, "list") {
            Some(l) => {
                collect_use_list(t, src, l, Some(combined.as_slice()), rx, entries);
            },
            None => {
                assert(entries_view(entries@) =~= before + expect);
            },
        }
    } else if t.kind_is(i, "use_list") {
        collect_use_list(t, src, i, prefix, rx, entries);
    } else if t.kind_is(i, "use_wildcard") {
        let named = t.named_children_of(i);
        let source = if named.len() > 0 {
            proof {
                assert(named@.map_values(|c: usize| c as int)[0] == named@[0] as int);
            }
            match path_text_of(t, src, named[0]) {
                Some(rel) => join_path_chars(prefix, rel.as_slice()),
                None => prefix_or_empty_chars(prefix),
            }
        } else {
            prefix_or_empty_chars(prefix)
        };
        let e = ScopeEntry { local_name: None, source_path: string_from_chars(source.as_slice()), kind: ImportKind::Wildcard };
        push_entry(entries, e);
        assert(entries_view(entries@) =~= before + expect);
    } else {
        assert(entries_view(entries@) =~= before + expect);
    }
}

/// Adds the entries of the named children of use list node `l`, in order.
fn collect_use_list(
    t: &SyntaxTree,
    src: &[char],
    l: usize,
    prefix: Option<&[char]>,
    rx: bool,
    entries: &mut Vec<ScopeEntry>,
)
    requires
        l < t.nodes@.len(),
        tree_wf(*t, src@.len()),
    ensures
        entries_view(final(entries)@) == entries_view(old(entries)@) + use_list_entries(
            *t,
            src@,
            l as int,
            all_named_children(*t, l as int),
            slice_opt(prefix),
            rx,
            all_named_children(*t, l as int).len() as int,
        ),
    decreases t.nodes@.len() - l - 1, 1int,
{
    let ghost before = entries_view(entries@);
    let ghost items = all_named_children(*t, l as int);
    let named = t.named_children_of(l);
    let mut k: usize = 0;
    while k < named.len()
        invariant
            l < t.nodes@.len(),
            tree_wf(*t, src@.len()),
            items == all_named_children(*t, l as int),
            named@.map_values(|c: usize| c as int) == items,
            forall|j: int| 0 <= j < named@.len() ==> l < #[trigger] named@[j] < t.nodes@.len(),
            k <= named@.len(),
            entries_view(entries@) == before + use_list_entries(*t, src@, l as int, items, slice_opt(prefix), rx, k as int),
        decreases named@.len() - k,
    {
        let c = named[k];
        assert(items[k as int] == c as int);
        let ghost mid = entries_view(entries@);
        collect_use_tree(t, src, c, prefix, rx, entries);
        assert(entries_view(entries@) =~= before + use_list_entries(*t, src@, l as int, items, slice_opt(prefix), rx, k + 1));
        k = k + 1;
    }
}

/// Every entry a `use` tree gives has a local name unless it is a wildcard.
pub proof fn lemma_use_tree_shaped(t: SyntaxTree, src: Seq<char>, i: int, prefix: Option<Seq<char>>, rx: bool)
    ensures
        all_shaped(use_tree_entries(t, src, i, prefix, rx)),
    decreases t.nodes@.len() - i, 0int,
{
    if 0 <= i < t.nodes@.len() {
        if kind_of(t, i) == "scoped_use_list"@ {
            let combined = match field_child(t, i, "path"@) {
                Some(p) => match path_text(t, src, p) {
                    Some(rel) => join_path(prefix, rel),
                    None => prefix_or_empty(prefix),
                },
                None => prefix_or_empty(prefix),
            };
            if let Some(l) = field_child(t, i, "list"@) {
                if i < l < t.nodes@.len() {
                    lemma_use_list_shaped(t, src, l, all_named_children(t, l), Some(combined), rx, all_named_children(t, l).len() as int);
                }
            }
        } else if kind_of(t, i) == "use_list"@ {
            lemma_use_list_shaped(t, src, i, all_named_children(t, i), prefix, rx, all_named_children(t, i).len() as int);
        }
    }
}

/// Every entry of a use list has a local name unless it is a wildcard.
pub proof fn lemma_use_list_shaped(
    t: SyntaxTree,
    src: Seq<char>,
    l: int,
    items: Seq<int>,
    prefix: Option<Seq<char>>,
    rx: bool,
    n: int,
)
    ensures
        all_shaped(use_list_entries(t, src, l, items, prefix, rx, n)),
    decreases t.nodes@.len() - l - 1, n,
{
    if n > 0 && n <= items.len() && 0 <= l < t.nodes@.len() {
        lemma_use_list_shaped(t, src, l, items, prefix, rx, n - 1);
        if l < items[n - 1] < t.nodes@.len() {
            lemma_use_tree_shaped(t, src, items[n - 1], prefix, rx);
            lemma_shaped_concat(
                use_list_entries(t, src, l, items, prefix, rx, n - 1),
                use_tree_entries(t, src, items[n - 1], prefix, rx),
            );
        }
    }
}

} // verus!
