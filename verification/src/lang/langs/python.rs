use vstd::prelude::*;

use crate::lang::common::{class_chain_name, class_chain_name_of, head_signature, head_signature_of};
use crate::lang::support::{all_shaped, entries_view, lemma_shaped_concat, push_entry, ImportKind, ScopeEntry, ScopeEntryView};
use crate::lang::syntax::{
    ancestor_of_kinds, field_child, field_children, field_text, first_named_child, kind_of, text_of,
    tree_wf, SyntaxTree,
};
use crate::text::{slice_chars, str_eq, string_from_chars, string_opt};

verus! {

/// The definitions a Python file is searched for.
pub const PYTHON_SYMBOL_QUERY: &'static str = "
(function_definition
  name: (identifier) @name) @definition

(class_definition
  name: (identifier) @name) @definition
";

/// The call sites a Python file is searched for.
pub const PYTHON_REFERENCE_QUERY: &'static str = "
(call
  function: (identifier) @callee)

(call
  function: (attribute
    attribute: (identifier) @callee))
";

/// The symbol kind of a captured Python definition node.
pub open spec fn python_symbol_kind(kind: Seq<char>) -> Option<Seq<char>> {
    if kind == "function_definition"@ {
        Some("function"@)
    } else if kind == "class_definition"@ {
        Some("class"@)
    } else {
        None
    }
}

/// The symbol kind of a captured Python definition node.
pub fn python_symbol_kind_of(kind: &str) -> (r: Option<String>)
    ensures
        string_opt(r) == python_symbol_kind(kind@),
{
    if str_eq(kind, "function_definition") {
        Some(String::from_str("function"))
    } else if str_eq(kind, "class_definition") {
        Some(String::from_str("class"))
    } else {
        None
    }
}

/// A Python definition's signature: its text up to the body, whitespace folded.
pub open spec fn python_signature(t: SyntaxTree, src: Seq<char>, i: int) -> Option<Seq<char>> {
    head_signature(t, src, i)
}

/// A Python definition's signature.
pub fn python_signature_of(t: &SyntaxTree, src: &[char], i: usize) -> (r: Option<String>)
    requires
        i < t.nodes@.len(),
        tree_wf(*t, src@.len()),
    ensures
        string_opt(r) == python_signature(*t, src@, i as int),
{
    head_signature_of(t, src, i)
}

/// A Python name is public unless it starts with `_`; dunder names
/// (`__x__`) are public.
pub open spec fn python_name_is_public(name: Seq<char>) -> bool {
    if name.len() >= 5 && name[0] == '_' && name[1] == '_' && name[name.len() - 2] == '_' && name[name.len() - 1] == '_' {
        true
    } else {
        !(name.len() > 0 && name[0] == '_')
    }
}

/// A Python definition is public by its name; one without a name is public.
pub open spec fn python_is_public(t: SyntaxTree, src: Seq<char>, i: int) -> bool {
    match field_text(t, src, i, "name"@) {
        Some(n) => python_name_is_public(n),
        None => true,
    }
}

/// Whether a Python definition is public.
pub fn python_is_public_at(t: &SyntaxTree, src: &[char], i: usize) -> (b: bool)
    requires
        i < t.nodes@.len(),
        tree_wf(*t, src@.len()),
    ensures
        b == python_is_public(*t, src@, i as int),
{
    let name = match t.child_by_field(i, "name") {
        Some(c) => slice_chars(src, t.nodes[c].start_char, t.nodes[c].end_char),
        None => {
            return true;
        },
    };
    let n = name.len();
    if n >= 5 && name[0] == '_' && name[1] == '_' && name[n - 2] == '_' && name[n - 1] == '_' {
        true
    } else {
        !(n > 0 && name[0] == '_')
    }
}

/// The name of the function a Python node sits in.
pub open spec fn python_enclosing(t: SyntaxTree, src: Seq<char>, i: int) -> Option<Seq<char>> {
    match ancestor_of_kinds(t, i, seq!["function_definition"@]) {
        Some(a) => field_text(t, src, a, "name"@),
        None => None,
    }
}

/// The name of the function a Python node sits in.
pub fn python_enclosing_of(t: &SyntaxTree, src: &[char], i: usize) -> (r: Option<String>)
    requires
        i < t.nodes@.len(),
        tree_wf(*t, src@.len()),
    ensures
        string_opt(r) == python_enclosing(*t, src@, i as int),
{
    let kinds: Vec<&str> = vec!["function_definition"];
    assert(kinds@.map_values(|s: &str| s@) =~= seq!["function_definition"@]);
    match t.ancestor_of_kinds(i, &kinds) {
        Some(a) => t.field_text(src, a, "name"),
        None => None,
    }
}

/// The class a Python definition belongs to: the dotted chain of the classes
/// it is nested in.
pub open spec fn python_owner(t: SyntaxTree, src: Seq<char>, i: int) -> Option<Seq<char>> {
    match ancestor_of_kinds(t, i, seq!["class_definition"@]) {
        Some(c) => class_chain_name(t, src, c, seq!["class_definition"@]),
        None => None,
    }
}

/// The class a Python definition belongs to.
pub fn python_owner_of(t: &SyntaxTree, src: &[char], i: usize) -> (r: Option<String>)
    requires
        i < t.nodes@.len(),
        tree_wf(*t, src@.len()),
    ensures
        string_opt(r) == python_owner(*t, src@, i as int),
{
    let kinds: Vec<&str> = vec!["class_definition"];
    assert(kinds@.map_values(|s: &str| s@) =~= seq!["class_definition"@]);
    match t.ancestor_of_kinds(i, &kinds) {
        Some(c) => class_chain_name_of(t, src, c, &kinds),
        None => None,
    }
}

/// `module.name`, or `module` followed directly by `name` where the module
/// ends in a dot (a relative import such as `from . import x`).
pub open spec fn join_from_source(module: Seq<char>, name: Seq<char>) -> Seq<char> {
    if module.len() > 0 && module.last() == '.' {
        module + name
    } else {
        module + seq!['.'] + name
    }
}

/// `module.name`, or `module` then `name` where the module ends in a dot.
fn join_from_source_chars(module: &[char], name: &[char]) -> (out: Vec<char>)
    ensures
        out@ == join_from_source(module@, name@),
{
    let mut out = slice_chars(module, 0, module.len());
    if !(module.len() > 0 && module[module.len() - 1] == '.') {
        out.push('.');
    }
    let ghost base = out@;
    let mut j: usize = 0;
    while j < name.len()
        invariant
            j <= name@.len(),
            out@ == base + name@.take(j as int),
        decreases name@.len() - j,
    {
        out.push(name[j]);
        assert(name@.take((j + 1) as int) =~= name@.take(j as int).push(name@[j as int]));
        j = j + 1;
    }
    assert(name@.take(name@.len() as int) =~= name@);
    out
}

/// The entry one `name` child of an `import` statement gives: a dotted name
/// binds its first segment to the whole path, an aliased import binds the
/// alias.
pub open spec fn import_name_entry(t: SyntaxTree, src: Seq<char>, n: int) -> Seq<ScopeEntryView> {
    if kind_of(t, n) == "dotted_name"@ {
        match first_named_child(t, n) {
            Some(f) => seq![ScopeEntryView { local_name: Some(text_of(t, src, f)), source_path: text_of(t, src, n), kind: ImportKind::Direct { aliased: false } }],
            None => Seq::empty(),
        }
    } else if kind_of(t, n) == "aliased_import"@ {
        match (field_child(t, n, "name"@), field_child(t, n, "alias"@)) {
            (Some(p), Some(a)) => seq![ScopeEntryView { local_name: Some(text_of(t, src, a)), source_path: text_of(t, src, p), kind: ImportKind::Direct { aliased: true } }],
            _ => Seq::empty(),
        }
    } else {
        Seq::empty()
    }
}

/// The entries of the first `k` of the `names` children of an `import`
/// statement.
pub open spec fn import_names_entries(t: SyntaxTree, src: Seq<char>, names: Seq<int>, k: int) -> Seq<ScopeEntryView>
    decreases k,
{
    if k <= 0 || k > names.len() {
        Seq::empty()
    } else {
        import_names_entries(t, src, names, k - 1) + import_name_entry(t, src, names[k - 1])
    }
}

/// The entries an `import` statement gives.
pub open spec fn import_statement_entries(t: SyntaxTree, src: Seq<char>, i: int) -> Seq<ScopeEntryView> {
    let names = field_children(t, i, "name"@, t.nodes@[i].children@.len() as int);
    import_names_entries(t, src, names, names.len() as int)
}

/// The entry one `name` child of a `from` import gives, under `module`.
pub open spec fn from_name_entry(t: SyntaxTree, src: Seq<char>, module: Seq<char>, n: int) -> Seq<ScopeEntryView> {
    if kind_of(t, n) == "dotted_name"@ {
        seq![ScopeEntryView { local_name: Some(text_of(t, src, n)), source_path: join_from_source(module, text_of(t, src, n)), kind: ImportKind::Direct { aliased: false } }]
    } else if kind_of(t, n) == "aliased_import"@ {
        match (field_child(t, n, "name"@), field_child(t, n, "alias"@)) {
            (Some(p), Some(a)) => seq![ScopeEntryView { local_name: Some(text_of(t, src, a)), source_path: join_from_source(module, text_of(t, src, p)), kind: ImportKind::Direct { aliased: true } }],
            _ => Seq::empty(),
        }
    } else {
        Seq::empty()
    }
}

/// The entries of the first `k` of the `names` children of a `from` import.
pub open spec fn from_names_entries(t: SyntaxTree, src: Seq<char>, module: Seq<char>, names: Seq<int>, k: int) -> Seq<ScopeEntryView>
    decreases k,
{
    if k <= 0 || k > names.len() {
        Seq::empty()
    } else {
        from_names_entries(t, src, module, names, k - 1) + from_name_entry(t, src, module, names[k - 1])
    }
}

/// One wildcard entry for each `*` among the first `k` children of a `from`
/// import.
pub open spec fn wildcard_entries(t: SyntaxTree, i: int, module: Seq<char>, k: int) -> Seq<ScopeEntryView>
    decreases k,
{
    if k <= 0 || k > t.nodes@[i].children@.len() {
        Seq::empty()
    } else if kind_of(t, t.nodes@[i].children@[k - 1] as int) == "wildcard_import"@ {
        wildcard_entries(t, i, module, k - 1).push(ScopeEntryView { local_name: None, source_path: module, kind: ImportKind::Wildcard })
    } else {
        wildcard_entries(t, i, module, k - 1)
    }
}

/// The entries a `from module import ...` statement gives: its wildcards,
/// then its names; none where it has no module.
pub open spec fn from_statement_entries(t: SyntaxTree, src: Seq<char>, i: int) -> Seq<ScopeEntryView> {
    match field_child(t, i, "module_name"@) {
        Some(m) => {
            let module = text_of(t, src, m);
            let n = t.nodes@[i].children@.len() as int;
            let names = field_children(t, i, "name"@, n);
            wildcard_entries(t, i, module, n) + from_names_entries(t, src, module, names, names.len() as int)
        },
        None => Seq::empty(),
    }
}

/// The entries node `i` itself gives.
pub open spec fn python_own_entries(t: SyntaxTree, src: Seq<char>, i: int) -> Seq<ScopeEntryView> {
    if kind_of(t, i) == "import_statement"@ {
        import_statement_entries(t, src, i)
    } else if kind_of(t, i) == "import_from_statement"@ {
        from_statement_entries(t, src, i)
    } else {
        Seq::empty()
    }
}

/// The imports found at node `i` and below it, in preorder.
pub open spec fn python_walk(t: SyntaxTree, src: Seq<char>, i: int) -> Seq<ScopeEntryView>
    decreases t.nodes@.len() - i, 0int,
{
    if i < 0 || i >= t.nodes@.len() {
        Seq::empty()
    } else {
        python_own_entries(t, src, i) + python_walk_children(t, src, i, t.nodes@[i].children@.len() as int)
    }
}

/// The imports found under the first `k` children of node `i`, in order.
pub open spec fn python_walk_children(t: SyntaxTree, src: Seq<char>, i: int, k: int) -> Seq<ScopeEntryView>
    decreases t.nodes@.len() - i - 1, k,
{
    if k <= 0 || i < 0 || i >= t.nodes@.len() || k > t.nodes@[i].children@.len() {
        Seq::empty()
    } else {
        let c = t.nodes@[i].children@[k - 1] as int;
        if i < c < t.nodes@.len() {
            python_walk_children(t, src, i, k - 1) + python_walk(t, src, c)
        } else {
            python_walk_children(t, src, i, k - 1)
        }
    }
}

/// Adds the entry one `name` child of an `import` statement gives.
fn collect_import_name(t: &SyntaxTree, src: &[char], n: usize, entries: &mut Vec<ScopeEntry>)
    requires
        n < t.nodes@.len(),
        tree_wf(*t, src@.len()),
    ensures
        entries_view(final(entries)@) == entries_view(old(entries)@) + import_name_entry(*t, src@, n as int),
{
    let ghost before = entries_view(entries@);
    let ghost expect = import_name_entry(*t, src@, n as int);
    if t.kind_is(n, "dotted_name") {
        match t.named_child0(n) {
            Some(f) => {
                let e = ScopeEntry { local_name: Some(t.text(src, f)), source_path: t.text(src, n), kind: ImportKind::Direct { aliased: false } };
                push_entry(entries, e);
                assert(entries_view(entries@) =~= before + expect);
            },
            None => {
                assert(entries_view(entries@) =~= before + expect);
            },
        }
    } else if t.kind_is(n, "aliased_import") {
        match (t.child_by_field(n, "name"), t.child_by_field(n, "alias")) {
            (Some(p), Some(a)) => {
                let e = ScopeEntry { local_name: Some(t.text(src, a)), source_path: t.text(src, p), kind: ImportKind::Direct { aliased: true } };
                push_entry(entries, e);
                assert(entries_view(entries@) =~= before + expect);
            },
            _ => {
                assert(entries_view(entries@) =~= before + expect);
            },
        }
    } else {
        assert(entries_view(entries@) =~= before + expect);
    }
}

/// Adds the entries an `import` statement gives.
pub fn collect_import_statement(t: &SyntaxTree, src: &[char], i: usize, entries: &mut Vec<ScopeEntry>)
    requires
        i < t.nodes@.len(),
        tree_wf(*t, src@.len()),
    ensures
        entries_view(final(entries)@) == entries_view(old(entries)@) + import_statement_entries(*t, src@, i as int),
{
    let ghost before = entries_view(entries@);
    let ghost names_i = field_children(*t, i as int, "name"@, t.nodes@[i as int].children@.len() as int);
    let names = t.children_by_field(i, "name");
    let mut k: usize = 0;
    while k < names.len()
        invariant
            tree_wf(*t, src@.len()),
            names@.map_values(|c: usize| c as int) == names_i,
            forall|j: int| 0 <= j < names@.len() ==> i < #[trigger] names@[j] < t.nodes@.len(),
            k <= names@.len(),
            entries_view(entries@) == before + import_names_entries(*t, src@, names_i, k as int),
        decreases names@.len() - k,
    {
        assert(names_i[k as int] == names@[k as int] as int);
        collect_import_name(t, src, names[k], entries);
        assert(entries_view(entries@) =~= before + import_names_entries(*t, src@, names_i, k + 1));
        k = k + 1;
    }
}

/// Adds the entry one `name` child of a `from` import gives.
fn collect_from_name(t: &SyntaxTree, src: &[char], module: &[char], n: usize, entries: &mut Vec<ScopeEntry>)
    requires
        n < t.nodes@.len(),
        tree_wf(*t, src@.len()),
    ensures
        entries_view(final(entries)@) == entries_view(old(entries)@) + from_name_entry(*t, src@, module@, n as int),
{
    let ghost before = entries_view(entries@);
    let ghost expect = from_name_entry(*t, src@, module@, n as int);
    if t.kind_is(n, "dotted_name") {
        let name = t.text_chars(src, n);
        let path = join_from_source_chars(module, name.as_slice());
        let e = ScopeEntry {
            local_name: Some(string_from_chars(name.as_slice())),
            source_path: string_from_chars(path.as_slice()),
            kind: ImportKind::Direct { aliased: false },
        };
        push_entry(entries, e);
        assert(entries_view(entries@) =~= before + expect);
    } else if t.kind_is(n, "aliased_import") {
        match (t.child_by_field(n, "name"), t.child_by_field(n, "alias")) {
            (Some(p), Some(a)) => {
                let name = t.text_chars(src, p);
                let path = join_from_source_chars(module, name.as_slice());
                let e = ScopeEntry {
                    local_name: Some(t.text(src, a)),
                    source_path: string_from_chars(path.as_slice()),
                    kind: ImportKind::Direct { aliased: true },
                };
                push_entry(entries, e);
                assert(entries_view(entries@) =~= before + expect);
            },
            _ => {
                assert(entries_view(entries@) =~= before + expect);
            },
        }
    } else {
        assert(entries_view(entries@) =~= before + expect);
    }
}

/// Adds the entries a `from module import ...` statement gives.
pub fn collect_import_from_statement(t: &SyntaxTree, src: &[char], i: usize, entries: &mut Vec<ScopeEntry>)
    requires
        i < t.nodes@.len(),
        tree_wf(*t, src@.len()),
    ensures
        entries_view(final(entries)@) == entries_view(old(entries)@) + from_statement_entries(*t, src@, i as int),
{
    let ghost before = entries_view(entries@);
    let m = match t.child_by_field(i, "module_name") {
        Some(m) => m,
        None => {
            assert(entries_view(entries@) =~= before + from_statement_entries(*t, src@, i as int));
            return;
        },
    };
    let module = t.text_chars(src, m);
    let children = &t.nodes[i].children;
    let mut k: usize = 0;
    while k < children.len()
        invariant
            tree_wf(*t, src@.len()),
            i < t.nodes@.len(),
            children == &t.nodes@[i as int].children,
            k <= children@.len(),
            entries_view(entries@) == before + wildcard_entries(*t, i as int, module@, k as int),
        decreases children@.len() - k,
    {
        let c = children[k];
        assert(i < c < t.nodes@.len());
        if t.kind_is(c, "wildcard_import") {
            let e = ScopeEntry { local_name: None, source_path: string_from_chars(module.as_slice()), kind: ImportKind::Wildcard };
            push_entry(entries, e);
        }
        k = k + 1;
    }
    let ghost mid = entries_view(entries@);
    let ghost names_i = field_children(*t, i as int, "name"@, t.nodes@[i as int].children@.len() as int);
    let names = t.children_by_field(i, "name");
    let mut k: usize = 0;
    while k < names.len()
        invariant
            tree_wf(*t, src@.len()),
            names@.map_values(|c: usize| c as int) == names_i,
            forall|j: int| 0 <= j < names@.len() ==> i < #[trigger] names@[j] < t.nodes@.len(),
            k <= names@.len(),
            entries_view(entries@) == mid + from_names_entries(*t, src@, module@, names_i, k as int),
        decreases names@.len() - k,
    {
        assert(names_i[k as int] == names@[k as int] as int);
        collect_from_name(t, src, module.as_slice(), names[k], entries);
        assert(entries_view(entries@) =~= mid + from_names_entries(*t, src@, module@, names_i, k + 1));
        k = k + 1;
    }
    assert(entries_view(entries@) =~= before + from_statement_entries(*t, src@, i as int));
}

/// Adds the imports found at node `i` and below it, in preorder.
pub fn walk_imports(t: &SyntaxTree, src: &[char], i: usize, entries: &mut Vec<ScopeEntry>)
    requires
        i < t.nodes@.len(),
        tree_wf(*t, src@.len()),
    ensures
        entries_view(final(entries)@) == entries_view(old(entries)@) + python_walk(*t, src@, i as int),
    decreases t.nodes@.len() - i,
{
    let ghost before = entries_view(entries@);
    if t.kind_is(i, "import_statement") {
        collect_import_statement(t, src, i, entries);
    } else if t.kind_is(i, "import_from_statement") {
        collect_import_from_statement(t, src, i, entries);
    }
    let ghost own = entries_view(entries@);
    assert(own == before + python_own_entries(*t, src@, i as int));
    let children = &t.nodes[i].children;
    let mut k: usize = 0;
    while k < children.len()
        invariant
            tree_wf(*t, src@.len()),
            i < t.nodes@.len(),
            children == &t.nodes@[i as int].children,
            k <= children@.len(),
            entries_view(entries@) == own + python_walk_children(*t, src@, i as int, k as int),
        decreases children@.len() - k,
    {
        let c = children[k];
        assert(i < c < t.nodes@.len());
        walk_imports(t, src, c, entries);
        assert(entries_view(entries@) =~= own + python_walk_children(*t, src@, i as int, k + 1));
        k = k + 1;
    }
    assert(entries_view(entries@) =~= before + python_walk(*t, src@, i as int));
}

proof fn lemma_import_names_shaped(t: SyntaxTree, src: Seq<char>, names: Seq<int>, k: int)
    ensures
        all_shaped(import_names_entries(t, src, names, k)),
    decreases k,
{
    if k > 0 && k <= names.len() {
        lemma_import_names_shaped(t, src, names, k - 1);
        lemma_shaped_concat(import_names_entries(t, src, names, k - 1), import_name_entry(t, src, names[k - 1]));
    }
}

proof fn lemma_from_names_shaped(t: SyntaxTree, src: Seq<char>, module: Seq<char>, names: Seq<int>, k: int)
    ensures
        all_shaped(from_names_entries(t, src, module, names, k)),
    decreases k,
{
    if k > 0 && k <= names.len() {
        lemma_from_names_shaped(t, src, module, names, k - 1);
        lemma_shaped_concat(from_names_entries(t, src, module, names, k - 1), from_name_entry(t, src, module, names[k - 1]));
    }
}

proof fn lemma_wildcards_shaped(t: SyntaxTree, i: int, module: Seq<char>, k: int)
    ensures
        all_shaped(wildcard_entries(t, i, module, k)),
    decreases k,
{
    if k > 0 && k <= t.nodes@[i].children@.len() {
        lemma_wildcards_shaped(t, i, module, k - 1);
    }
}

proof fn lemma_own_shaped(t: SyntaxTree, src: Seq<char>, i: int)
    ensures
        all_shaped(python_own_entries(t, src, i)),
{
    let names = field_children(t, i, "name"@, t.nodes@[i].children@.len() as int);
    lemma_import_names_shaped(t, src, names, names.len() as int);
    if let Some(m) = field_child(t, i, "module_name"@) {
        let module = text_of(t, src, m);
        let n = t.nodes@[i].children@.len() as int;
        lemma_wildcards_shaped(t, i, module, n);
        lemma_from_names_shaped(t, src, module, names, names.len() as int);
        lemma_shaped_concat(wildcard_entries(t, i, module, n), from_names_entries(t, src, module, names, names.len() as int));
    }
}

/// Every import a Python file gives has a local name unless it is a
/// wildcard.
pub proof fn lemma_python_walk_shaped(t: SyntaxTree, src: Seq<char>, i: int)
    ensures
        all_shaped(python_walk(t, src, i)),
    decreases t.nodes@.len() - i, 0int,
{
    if 0 <= i < t.nodes@.len() {
        lemma_own_shaped(t, src, i);
        lemma_python_children_shaped(t, src, i, t.nodes@[i].children@.len() as int);
        lemma_shaped_concat(python_own_entries(t, src, i), python_walk_children(t, src, i, t.nodes@[i].children@.len() as int));
    }
}

proof fn lemma_python_children_shaped(t: SyntaxTree, src: Seq<char>, i: int, k: int)
    ensures
        all_shaped(python_walk_children(t, src, i, k)),
    decreases t.nodes@.len() - i - 1, k,
{
    if k > 0 && 0 <= i < t.nodes@.len() && k <= t.nodes@[i].children@.len() {
        let c = t.nodes@[i].children@[k - 1] as int;
        lemma_python_children_shaped(t, src, i, k - 1);
        if i < c < t.nodes@.len() {
            lemma_python_walk_shaped(t, src, c);
            lemma_shaped_concat(python_walk_children(t, src, i, k - 1), python_walk(t, src, c));
        }
    }
}

} // verus!
