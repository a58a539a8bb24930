use vstd::prelude::*;

use crate::lang::common::{class_chain_name, class_chain_name_of, head_signature, head_signature_of, signature_between, signature_between_chars};
use crate::lang::support::{all_shaped, entries_view, lemma_shaped_concat, push_entry, ImportKind, ScopeEntry, ScopeEntryView};
use crate::lang::syntax::{
    all_named_children, ancestor_of_kinds, child_of_kind, field_child, field_text, first_named_child,
    int_opt, kind_of, kind_in, search_up, text_of, tree_wf, SyntaxTree,
};
use crate::text::{slice_chars, str_eq, string_from_chars, string_opt, strip_quotes, strip_quotes_chars};

verus! {

/// The definitions a TypeScript file is searched for.
pub const TYPESCRIPT_SYMBOL_QUERY: &'static str = "
(function_declaration
  name: (identifier) @name) @definition

(class_declaration
  name: (type_identifier) @name) @definition

(method_definition
  name: (property_identifier) @name) @definition

(interface_declaration
  name: (type_identifier) @name) @definition

(type_alias_declaration
  name: (type_identifier) @name) @definition

(enum_declaration
  name: (identifier) @name) @definition

(variable_declarator
  name: (identifier) @name
  value: (arrow_function)) @definition
";

/// The call sites a TypeScript file is searched for.
pub const TYPESCRIPT_REFERENCE_QUERY: &'static str = "
(call_expression
  function: (identifier) @callee)

(call_expression
  function: (member_expression
    property: (property_identifier) @callee))

(new_expression
  constructor: (identifier) @callee)
";

/// The symbol kind of a captured TypeScript or JavaScript definition node.
pub open spec fn ts_symbol_kind(kind: Seq<char>) -> Option<Seq<char>> {
    if kind == "function_declaration"@ || kind == "variable_declarator"@ {
        Some("function"@)
    } else if kind == "method_definition"@ {
        Some("method"@)
    } else if kind == "class_declaration"@ {
        Some("class"@)
    } else if kind == "interface_declaration"@ {
        Some("interface"@)
    } else if kind == "type_alias_declaration"@ {
        Some("type"@)
    } else if kind == "enum_declaration"@ {
        Some("enum"@)
    } else {
        None
    }
}

/// The symbol kind of a captured TypeScript or JavaScript definition node.
pub fn ts_symbol_kind_of(kind: &str) -> (r: Option<String>)
    ensures
        string_opt(r) == ts_symbol_kind(kind@),
{
    if str_eq(kind, "function_declaration") || str_eq(kind, "variable_declarator") {
        Some(String::from_str("function"))
    } else if str_eq(kind, "method_definition") {
        Some(String::from_str("method"))
    } else if str_eq(kind, "class_declaration") {
        Some(String::from_str("class"))
    } else if str_eq(kind, "interface_declaration") {
        Some(String::from_str("interface"))
    } else if str_eq(kind, "type_alias_declaration") {
        Some(String::from_str("type"))
    } else if str_eq(kind, "enum_declaration") {
        Some(String::from_str("enum"))
    } else {
        None
    }
}

/// Where the signature of an arrow-function declarator ends: at the body of
/// its value, or at the end of the declarator.
pub open spec fn declarator_end(t: SyntaxTree, i: int) -> int {
    match field_child(t, i, "value"@) {
        Some(v) => match field_child(t, v, "body"@) {
            Some(b) => t.nodes@[b].start_char as int,
            None => t.nodes@[i].end_char as int,
        },
        None => t.nodes@[i].end_char as int,
    }
}

/// Where the signature of an arrow-function declarator starts: at its
/// declaration (`const f = ...`), or at the declarator itself.
pub open spec fn declarator_start(t: SyntaxTree, i: int) -> int {
    match t.nodes@[i].parent {
        Some(p) => t.nodes@[p as int].start_char as int,
        None => t.nodes@[i].start_char as int,
    }
}

/// A TypeScript or JavaScript definition's signature: interfaces and type
/// aliases whole, arrow-function declarators from their declaration to the
/// arrow body, other definitions up to their body; whitespace folded.
pub open spec fn ts_signature(t: SyntaxTree, src: Seq<char>, i: int) -> Option<Seq<char>> {
    if kind_of(t, i) == "interface_declaration"@ || kind_of(t, i) == "type_alias_declaration"@ {
        signature_between(src, t.nodes@[i].start_char as int, t.nodes@[i].end_char as int)
    } else if kind_of(t, i) == "variable_declarator"@ {
        signature_between(src, declarator_start(t, i), declarator_end(t, i))
    } else {
        head_signature(t, src, i)
    }
}

/// A TypeScript or JavaScript definition's signature.
pub fn ts_signature_of(t: &SyntaxTree, src: &[char], i: usize) -> (r: Option<String>)
    requires
        i < t.nodes@.len(),
        tree_wf(*t, src@.len()),
    ensures
        string_opt(r) == ts_signature(*t, src@, i as int),
{
    if t.kind_is(i, "interface_declaration") || t.kind_is(i, "type_alias_declaration") {
        signature_between_chars(src, t.nodes[i].start_char, t.nodes[i].end_char)
    } else if t.kind_is(i, "variable_declarator") {
        let start = match t.nodes[i].parent {
            Some(p) => t.nodes[p].start_char,
            None => t.nodes[i].start_char,
        };
        let end = match t.child_by_field(i, "value") {
            Some(v) => match t.child_by_field(v, "body") {
                Some(b) => t.nodes[b].start_char,
                None => t.nodes[i].end_char,
            },
            None => t.nodes[i].end_char,
        };
        signature_between_chars(src, start, end)
    } else {
        head_signature_of(t, src, i)
    }
}

/// The parent of node `i` is an `export` statement.
pub open spec fn parent_is_export(t: SyntaxTree, i: int) -> bool {
    match t.nodes@[i].parent {
        Some(p) => kind_of(t, p as int) == "export_statement"@,
        None => false,
    }
}

/// Visibility by export: a declarator is public when its declaration is
/// exported, any other definition when it is itself exported.
pub open spec fn export_is_public(t: SyntaxTree, i: int) -> bool {
    if kind_of(t, i) == "variable_declarator"@ {
        match t.nodes@[i].parent {
            Some(p) => parent_is_export(t, p as int),
            None => false,
        }
    } else {
        parent_is_export(t, i)
    }
}

fn parent_is_export_at(t: &SyntaxTree, i: usize) -> (b: bool)
    requires
        i < t.nodes@.len(),
        exists|n: nat| tree_wf(*t, n),
    ensures
        b == parent_is_export(*t, i as int),
{
    let ghost n = choose|n: nat| tree_wf(*t, n);
    match t.nodes[i].parent {
        Some(p) => {
            assert(p < i);
            t.kind_is(p, "export_statement")
        },
        None => false,
    }
}

fn export_is_public_at(t: &SyntaxTree, i: usize) -> (b: bool)
    requires
        i < t.nodes@.len(),
        exists|n: nat| tree_wf(*t, n),
    ensures
        b == export_is_public(*t, i as int),
{
    let ghost n = choose|n: nat| tree_wf(*t, n);
    if t.kind_is(i, "variable_declarator") {
        match t.nodes[i].parent {
            Some(p) => {
                assert(p < i);
                parent_is_export_at(t, p)
            },
            None => false,
        }
    } else {
        parent_is_export_at(t, i)
    }
}

/// TypeScript visibility: a method is public unless an accessibility
/// modifier other than `public` says otherwise; other definitions by export.
pub open spec fn ts_is_public(t: SyntaxTree, src: Seq<char>, i: int) -> bool {
    if kind_of(t, i) == "method_definition"@ {
        match child_of_kind(t, i, "accessibility_modifier"@) {
            Some(m) => text_of(t, src, m) == "public"@,
            None => true,
        }
    } else {
        export_is_public(t, i)
    }
}

/// Whether a TypeScript definition is public.
pub fn ts_is_public_at(t: &SyntaxTree, src: &[char], i: usize) -> (b: bool)
    requires
        i < t.nodes@.len(),
        tree_wf(*t, src@.len()),
    ensures
        b == ts_is_public(*t, src@, i as int),
{
    if t.kind_is(i, "method_definition") {
        match t.child_of_kind(i, "accessibility_modifier") {
            Some(m) => {
                let text = t.text(src, m);
                str_eq(text.as_str(), "public")
            },
            None => true,
        }
    } else {
        export_is_public_at(t, i)
    }
}

/// JavaScript visibility: a method is public unless its name is `#private`;
/// other definitions by export.
pub open spec fn js_is_public(t: SyntaxTree, i: int) -> bool {
    if kind_of(t, i) == "method_definition"@ {
        match field_child(t, i, "name"@) {
            Some(n) => kind_of(t, n) != "private_property_identifier"@,
            None => true,
        }
    } else {
        export_is_public(t, i)
    }
}

/// Whether a JavaScript definition is public.
pub fn js_is_public_at(t: &SyntaxTree, i: usize) -> (b: bool)
    requires
        i < t.nodes@.len(),
        exists|n: nat| tree_wf(*t, n),
    ensures
        b == js_is_public(*t, i as int),
{
    if t.kind_is(i, "method_definition") {
        match t.child_by_field(i, "name") {
            Some(n) => !t.kind_is(n, "private_property_identifier"),
            None => true,
        }
    } else {
        export_is_public_at(t, i)
    }
}

/// The value of declarator `a` is an arrow function.
pub open spec fn value_is_arrow(t: SyntaxTree, a: int) -> bool {
    match field_child(t, a, "value"@) {
        Some(v) => kind_of(t, v) == "arrow_function"@,
        None => false,
    }
}

/// A node that names the code around it: a function declaration, a method,
/// or a declarator holding an arrow function.
pub open spec fn is_function_like(t: SyntaxTree, a: int) -> bool {
    kind_of(t, a) == "function_declaration"@ || kind_of(t, a) == "method_definition"@ || (kind_of(t, a)
        == "variable_declarator"@ && value_is_arrow(t, a))
}

/// The name of the function, method or arrow function a node sits in.
pub open spec fn ts_enclosing(t: SyntaxTree, src: Seq<char>, i: int) -> Option<Seq<char>> {
    match search_up(t, t.nodes@[i].parent, |a: int| is_function_like(t, a)) {
        Some(a) => field_text(t, src, a, "name"@),
        None => None,
    }
}

/// The name of the function, method or arrow function a node sits in.
pub fn ts_enclosing_of(t: &SyntaxTree, src: &[char], i: usize) -> (r: Option<String>)
    requires
        i < t.nodes@.len(),
        tree_wf(*t, src@.len()),
    ensures
        string_opt(r) == ts_enclosing(*t, src@, i as int),
{
    let ghost pred = |a: int| is_function_like(*t, a);
    let mut cur = t.nodes[i].parent;
    while true
        invariant
            tree_wf(*t, src@.len()),
            i < t.nodes@.len(),
            pred == (|a: int| is_function_like(*t, a)),
            search_up(*t, cur, pred) == search_up(*t, t.nodes@[i as int].parent, pred),
            cur matches Some(a) ==> a < t.nodes@.len(),
        decreases (match cur {
            Some(a) => a as int + 1,
            None => 0int,
        }),
    {
        let a = match cur {
            Some(a) => a,
            None => {
                return None;
            },
        };
        let hit = if t.kind_is(a, "function_declaration") || t.kind_is(a, "method_definition") {
            true
        } else if t.kind_is(a, "variable_declarator") {
            match t.child_by_field(a, "value") {
                Some(v) => t.kind_is(v, "arrow_function"),
                None => false,
            }
        } else {
            false
        };
        if hit {
            return t.field_text(src, a, "name");
        }
        cur = t.nodes[a].parent;
    }
    None
}

/// The name an object literal is bound to: the declarator or property whose
/// value it is (a property key without its quotes).
pub open spec fn object_owner_name(t: SyntaxTree, src: Seq<char>, o: int) -> Option<Seq<char>> {
    match t.nodes@[o].parent {
        Some(p) => {
            let p = p as int;
            if kind_of(t, p) == "variable_declarator"@ {
                match field_child(t, p, "value"@) {
                    Some(v) => if v == o {
                        field_text(t, src, p, "name"@)
                    } else {
                        None
                    },
                    None => None,
                }
            } else if kind_of(t, p) == "pair"@ {
                match field_child(t, p, "value"@) {
                    Some(v) => if v == o {
                        match field_text(t, src, p, "key"@) {
                            Some(k) => Some(strip_quotes(k)),
                            None => None,
                        }
                    } else {
                        None
                    },
                    None => None,
                }
            } else {
                None
            }
        },
        None => None,
    }
}

/// The name an object literal is bound to.
fn object_owner_name_of(t: &SyntaxTree, src: &[char], o: usize) -> (r: Option<String>)
    requires
        o < t.nodes@.len(),
        tree_wf(*t, src@.len()),
    ensures
        string_opt(r) == object_owner_name(*t, src@, o as int),
{
    let p = match t.nodes[o].parent {
        Some(p) => p,
        None => {
            return None;
        },
    };
    assert(p < o);
    if t.kind_is(p, "variable_declarator") {
        match t.child_by_field(p, "value") {
            Some(v) => if v == o {
                t.field_text(src, p, "name")
            } else {
                None
            },
            None => None,
        }
    } else if t.kind_is(p, "pair") {
        match t.child_by_field(p, "value") {
            Some(v) => if v == o {
                match t.child_by_field(p, "key") {
                    Some(k) => {
                        let key = t.text_chars(src, k);
                        let stripped = strip_quotes_chars(key.as_slice());
                        Some(string_from_chars(stripped.as_slice()))
                    },
                    None => None,
                }
            } else {
                None
            },
            None => None,
        }
    } else {
        None
    }
}

/// What a TypeScript or JavaScript definition belongs to: the dotted chain of
/// classes around it, or the name of the object literal it sits in, whichever
/// is nearer.
pub open spec fn ts_owner(t: SyntaxTree, src: Seq<char>, i: int) -> Option<Seq<char>> {
    match ancestor_of_kinds(t, i, seq!["class_declaration"@, "class"@, "object"@]) {
        Some(a) => if kind_of(t, a) == "object"@ {
            object_owner_name(t, src, a)
        } else {
            class_chain_name(t, src, a, seq!["class_declaration"@, "class"@])
        },
        None => None,
    }
}

/// What a TypeScript or JavaScript definition belongs to.
pub fn ts_owner_of(t: &SyntaxTree, src: &[char], i: usize) -> (r: Option<String>)
    requires
        i < t.nodes@.len(),
        tree_wf(*t, src@.len()),
    ensures
        string_opt(r) == ts_owner(*t, src@, i as int),
{
    let kinds: Vec<&str> = vec!["class_declaration", "class", "object"];
    assert(kinds@.map_values(|s: &str| s@) =~= seq!["class_declaration"@, "class"@, "object"@]);
    match t.ancestor_of_kinds(i, &kinds) {
        Some(a) => if t.kind_is(a, "object") {
            object_owner_name_of(t, src, a)
        } else {
            let classes: Vec<&str> = vec!["class_declaration", "class"];
            assert(classes@.map_values(|s: &str| s@) =~= seq!["class_declaration"@, "class"@]);
            class_chain_name_of(t, src, a, &classes)
        },
        None => None,
    }
}

/// The module a `source` string node names: the text of its first named
/// child (the string fragment).
pub open spec fn module_text(t: SyntaxTree, src: Seq<char>, s: int) -> Option<Seq<char>> {
    match first_named_child(t, s) {
        Some(f) => Some(text_of(t, src, f)),
        None => None,
    }
}

/// The local name, the imported name, and whether it is aliased, of an import
/// or export specifier.
pub open spec fn alias_or_name(t: SyntaxTree, src: Seq<char>, sp: int) -> Option<(Seq<char>, Seq<char>, bool)> {
    match field_text(t, src, sp, "name"@) {
        Some(name) => match field_text(t, src, sp, "alias"@) {
            Some(alias) => Some((alias, name, true)),
            None => Some((name, name, false)),
        },
        None => None,
    }
}

/// The kind of a named import (`Direct`) or re-export (`Reexport`).
pub open spec fn specifier_kind(reexport: bool, aliased: bool) -> ImportKind {
    if reexport {
        ImportKind::Reexport { aliased }
    } else {
        ImportKind::Direct { aliased }
    }
}

/// The entries of the specifiers of kind `spec_kind` among the first `k`
/// items, each as `module.name`.
pub open spec fn specifier_entries(
    t: SyntaxTree,
    src: Seq<char>,
    items: Seq<int>,
    module: Seq<char>,
    spec_kind: Seq<char>,
    reexport: bool,
    k: int,
) -> Seq<ScopeEntryView>
    decreases k,
{
    if k <= 0 || k > items.len() {
        Seq::empty()
    } else {
        let rest = specifier_entries(t, src, items, module, spec_kind, reexport, k - 1);
        let sp = items[k - 1];
        if kind_of(t, sp) == spec_kind {
            match alias_or_name(t, src, sp) {
                Some((local, name, aliased)) => rest.push(
                    ScopeEntryView { local_name: Some(local), source_path: module + seq!['.'] + name, kind: specifier_kind(reexport, aliased) },
                ),
                None => rest,
            }
        } else {
            rest
        }
    }
}

/// The first named child of `i` where it has kind `kind`.
pub open spec fn first_named_of_kind(t: SyntaxTree, i: int, kind: Seq<char>) -> Option<int> {
    match first_named_child(t, i) {
        Some(c) => if kind_of(t, c) == kind {
            Some(c)
        } else {
            None
        },
        None => None,
    }
}

/// The entries an `import` statement gives: a side-effect import where it has
/// no clause; else by its first binding: a default import, a namespace
/// import, or named imports.
pub open spec fn ts_import_entries(t: SyntaxTree, src: Seq<char>, i: int) -> Seq<ScopeEntryView> {
    match field_child(t, i, "source"@) {
        Some(s) => match module_text(t, src, s) {
            Some(m) => match first_named_of_kind(t, i, "import_clause"@) {
                None => seq![ScopeEntryView { local_name: None, source_path: m, kind: ImportKind::SideEffect }],
                Some(c) => match first_named_child(t, c) {
                    Some(b) => if kind_of(t, b) == "identifier"@ {
                        seq![ScopeEntryView { local_name: Some(text_of(t, src, b)), source_path: m, kind: ImportKind::Direct { aliased: false } }]
                    } else if kind_of(t, b) == "namespace_import"@ {
                        match first_named_child(t, b) {
                            Some(id) => seq![ScopeEntryView { local_name: Some(text_of(t, src, id)), source_path: m, kind: ImportKind::Namespace }],
                            None => Seq::empty(),
                        }
                    } else if kind_of(t, b) == "named_imports"@ {
                        let items = all_named_children(t, b);
                        specifier_entries(t, src, items, m, "import_specifier"@, false, items.len() as int)
                    } else {
                        Seq::empty()
                    },
                    None => Seq::empty(),
                },
            },
            None => Seq::empty(),
        },
        None => Seq::empty(),
    }
}

/// The entries an `export ... from` statement gives: a wildcard re-export
/// where it has no clause, else one re-export per specifier.
pub open spec fn ts_export_entries(t: SyntaxTree, src: Seq<char>, i: int) -> Seq<ScopeEntryView> {
    match field_child(t, i, "source"@) {
        Some(s) => match module_text(t, src, s) {
            Some(m) => match first_named_of_kind(t, i, "export_clause"@) {
                None => seq![ScopeEntryView { local_name: None, source_path: m, kind: ImportKind::Wildcard }],
                Some(c) => {
                    let items = all_named_children(t, c);
                    specifier_entries(t, src, items, m, "export_specifier"@, true, items.len() as int)
                },
            },
            None => Seq::empty(),
        },
        None => Seq::empty(),
    }
}

/// The entries node `i` itself gives.
pub open spec fn ts_own_entries(t: SyntaxTree, src: Seq<char>, i: int) -> Seq<ScopeEntryView> {
    if kind_of(t, i) == "import_statement"@ {
        ts_import_entries(t, src, i)
    } else if kind_of(t, i) == "export_statement"@ {
        ts_export_entries(t, src, i)
    } else {
        Seq::empty()
    }
}

/// The imports and re-exports found at node `i` and below it, in preorder.
pub open spec fn ts_walk(t: SyntaxTree, src: Seq<char>, i: int) -> Seq<ScopeEntryView>
    decreases t.nodes@.len() - i, 0int,
{
    if i < 0 || i >= t.nodes@.len() {
        Seq::empty()
    } else {
        ts_own_entries(t, src, i) + ts_walk_children(t, src, i, t.nodes@[i].children@.len() as int)
    }
}

/// The imports found under the first `k` children of node `i`, in order.
pub open spec fn ts_walk_children(t: SyntaxTree, src: Seq<char>, i: int, k: int) -> Seq<ScopeEntryView>
    decreases t.nodes@.len() - i - 1, k,
{
    if k <= 0 || i < 0 || i >= t.nodes@.len() || k > t.nodes@[i].children@.len() {
        Seq::empty()
    } else {
        let c = t.nodes@[i].children@[k - 1] as int;
        if i < c < t.nodes@.len() {
            ts_walk_children(t, src, i, k - 1) + ts_walk(t, src, c)
        } else {
            ts_walk_children(t, src, i, k - 1)
        }
    }
}

/// The module a `source` string node names.
fn module_text_of(t: &SyntaxTree, src: &[char], s: usize) -> (r: Option<Vec<char>>)
    requires
        s < t.nodes@.len(),
        tree_wf(*t, src@.len()),
    ensures
        r matches Some(v) ==> module_text(*t, src@, s as int) == Some(v@),
        r is None ==> module_text(*t, src@, s as int) is None,
{
    match t.named_child0(s) {
        Some(f) => Some(t.text_chars(src, f)),
        None => None,
    }
}

/// The first named child of `i` where it has kind `kind`.
fn first_named_of_kind_at(t: &SyntaxTree, i: usize, kind: &str) -> (r: Option<usize>)
    requires
        i < t.nodes@.len(),
        exists|n: nat| tree_wf(*t, n),
    ensures
        int_opt(r) == first_named_of_kind(*t, i as int, kind@),
        r matches Some(c) ==> i < c < t.nodes@.len(),
{
    match t.named_child0(i) {
        Some(c) => if t.kind_is(c, kind) {
            Some(c)
        } else {
            None
        },
        None => None,
    }
}

/// Adds the entries of the specifiers of kind `spec_kind` among the named
/// children of `b`.
fn collect_specifiers(
    t: &SyntaxTree,
    src: &[char],
    b: usize,
    module: &[char],
    spec_kind: &str,
    reexport: bool,
    entries: &mut Vec<ScopeEntry>,
)
    requires
        b < t.nodes@.len(),
        tree_wf(*t, src@.len()),
    ensures
        entries_view(final(entries)@) == entries_view(old(entries)@) + specifier_entries(
            *t,
            src@,
            all_named_children(*t, b as int),
            module@,
            spec_kind@,
            reexport,
            all_named_children(*t, b as int).len() as int,
        ),
{
    let ghost before = entries_view(entries@);
    let ghost items = all_named_children(*t, b as int);
    let named = t.named_children_of(b);
    let mut k: usize = 0;
    while k < named.len()
        invariant
            tree_wf(*t, src@.len()),
            named@.map_values(|c: usize| c as int) == items,
            forall|j: int| 0 <= j < named@.len() ==> b < #[trigger] named@[j] < t.nodes@.len(),
            k <= named@.len(),
            entries_view(entries@) == before + specifier_entries(*t, src@, items, module@, spec_kind@, reexport, k as int),
        decreases named@.len() - k,
    {
        let sp = named[k];
        assert(items[k as int] == sp as int);
        let ghost mid = entries_view(entries@);
        if t.kind_is(sp, spec_kind) {
            match t.child_by_field(sp, "name") {
                Some(nm) => {
                    let name = t.text_chars(src, nm);
                    let (local, aliased) = match t.child_by_field(sp, "alias") {
                        Some(a) => (t.text(src, a), true),
                        None => (string_from_chars(name.as_slice()), false),
                    };
                    let mut path = slice_chars(module, 0, module.len());
                    path.push('.');
                    let ghost base = path@;
                    let mut j: usize = 0;
                    while j < name.len()
                        invariant
                            j <= name@.len(),
                            path@ == base + name@.take(j as int),
                        decreases name@.len() - j,
                    {
                        path.push(name[j]);
                        assert(name@.take((j + 1) as int) =~= name@.take(j as int).push(name@[j as int]));
                        j = j + 1;
                    }
                    assert(name@.take(name@.len() as int) =~= name@);
                    assert(path@ =~= module@ + seq!['.'] + name@);
                    let kind = if reexport {
                        ImportKind::Reexport { aliased }
                    } else {
                        ImportKind::Direct { aliased }
                    };
                    let e = ScopeEntry { local_name: Some(local), source_path: string_from_chars(path.as_slice()), kind };
                    push_entry(entries, e);
                },
                None => {},
            }
        }
        assert(entries_view(entries@) =~= before + specifier_entries(*t, src@, items, module@, spec_kind@, reexport, k + 1));
        k = k + 1;
    }
}

/// Adds the entries an `import` statement gives.
pub fn collect_import_statement(t: &SyntaxTree, src: &[char], i: usize, entries: &mut Vec<ScopeEntry>)
    requires
        i < t.nodes@.len(),
        tree_wf(*t, src@.len()),
    ensures
        entries_view(final(entries)@) == entries_view(old(entries)@) + ts_import_entries(*t, src@, i as int),
{
    let ghost before = entries_view(entries@);
    let ghost expect = ts_import_entries(*t, src@, i as int);
    let s = match t.child_by_field(i, "source") {
        Some(s) => s,
        None => {
            assert(entries_view(entries@) =~= before + expect);
            return;
        },
    };
    let m = match module_text_of(t, src, s) {
        Some(m) => m,
        None => {
            assert(entries_view(entries@) =~= before + expect);
            return;
        },
    };
    let c = match first_named_of_kind_at(t, i, "import_clause") {
        Some(c) => c,
        None => {
            let e = ScopeEntry { local_name: None, source_path: string_from_chars(m.as_slice()), kind: ImportKind::SideEffect };
            push_entry(entries, e);
            assert(entries_view(entries@) =~= before + expect);
            return;
        },
    };
    let b = match t.named_child0(c) {
        Some(b) => b,
        None => {
            assert(entries_view(entries@) =~= before + expect);
            return;
        },
    };
    if t.kind_is(b, "identifier") {
        let e = ScopeEntry { local_name: Some(t.text(src, b)), source_path: string_from_chars(m.as_slice()), kind: ImportKind::Direct { aliased: false } };
        push_entry(entries, e);
        assert(entries_view(entries@) =~= before + expect);
    } else if t.kind_is(b, "namespace_import") {
        match t.named_child0(b) {
            Some(id) => {
                let e = ScopeEntry { local_name: Some(t.text(src, id)), source_path: string_from_chars(m.as_slice()), kind: ImportKind::Namespace };
                push_entry(entries, e);
                assert(entries_view(entries@) =~= before + expect);
            },
            None => {
                assert(entries_view(entries@) =~= before + expect);
            },
        }
    } else if t.kind_is(b, "named_imports") {
        collect_specifiers(t, src, b, m.as_slice(), "import_specifier", false, entries);
    } else {
        assert(entries_view(entries@) =~= before + expect);
    }
}

/// Adds the entries an `export ... from` statement gives.
pub fn collect_export_statement(t: &SyntaxTree, src: &[char], i: usize, entries: &mut Vec<ScopeEntry>)
    requires
        i < t.nodes@.len(),
        tree_wf(*t, src@.len()),
    ensures
        entries_view(final(entries)@) == entries_view(old(entries)@) + ts_export_entries(*t, src@, i as int),
{
    let ghost before = entries_view(entries@);
    let ghost expect = ts_export_entries(*t, src@, i as int);
    let s = match t.child_by_field(i, "source") {
        Some(s) => s,
        None => {
            assert(entries_view(entries@) =~= before + expect);
            return;
        },
    };
    let m = match module_text_of(t, src, s) {
        Some(m) => m,
        None => {
            assert(entries_view(entries@) =~= before + expect);
            return;
        },
    };
    match first_named_of_kind_at(t, i, "export_clause") {
        Some(c) => {
            collect_specifiers(t, src, c, m.as_slice(), "export_specifier", true, entries);
        },
        None => {
            let e = ScopeEntry { local_name: None, source_path: string_from_chars(m.as_slice()), kind: ImportKind::Wildcard };
            push_entry(entries, e);
            assert(entries_view(entries@) =~= before + expect);
        },
    }
}

/// Adds the imports and re-exports found at node `i` and below it, in
/// preorder.
pub fn walk_imports(t: &SyntaxTree, src: &[char], i: usize, entries: &mut Vec<ScopeEntry>)
    requires
        i < t.nodes@.len(),
        tree_wf(*t, src@.len()),
    ensures
        entries_view(final(entries)@) == entries_view(old(entries)@) + ts_walk(*t, src@, i as int),
    decreases t.nodes@.len() - i,
{
    let ghost before = entries_view(entries@);
    if t.kind_is(i, "import_statement") {
        collect_import_statement(t, src, i, entries);
    } else if t.kind_is(i, "export_statement") {
        collect_export_statement(t, src, i, entries);
    }
    let ghost own = entries_view(entries@);
    assert(own == before + ts_own_entries(*t, src@, i as int));
    let children = &t.nodes[i].children;
    let mut k: usize = 0;
    while k < children.len()
        invariant
            tree_wf(*t, src@.len()),
            i < t.nodes@.len(),
            children == &t.nodes@[i as int].children,
            k <= children@.len(),
            entries_view(entries@) == own + ts_walk_children(*t, src@, i as int, k as int),
        decreases children@.len() - k,
    {
        let c = children[k];
        assert(i < c < t.nodes@.len());
        walk_imports(t, src, c, entries);
        assert(entries_view(entries@) =~= own + ts_walk_children(*t, src@, i as int, k + 1));
        k = k + 1;
    }
    assert(entries_view(entries@) =~= before + ts_walk(*t, src@, i as int));
}

proof fn lemma_specifiers_shaped(
    t: SyntaxTree,
    src: Seq<char>,
    items: Seq<int>,
    module: Seq<char>,
    spec_kind: Seq<char>,
    reexport: bool,
    k: int,
)
    ensures
        all_shaped(specifier_entries(t, src, items, module, spec_kind, reexport, k)),
    decreases k,
{
    if k > 0 && k <= items.len() {
        lemma_specifiers_shaped(t, src, items, module, spec_kind, reexport, k - 1);
    }
}

proof fn lemma_ts_own_shaped(t: SyntaxTree, src: Seq<char>, i: int)
    ensures
        all_shaped(ts_own_entries(t, src, i)),
{
    if let Some(s) = field_child(t, i, "source"@) {
        if let Some(m) = module_text(t, src, s) {
            if let Some(c) = first_named_of_kind(t, i, "import_clause"@) {
                if let Some(b) = first_named_child(t, c) {
                    let items = all_named_children(t, b);
                    lemma_specifiers_shaped(t, src, items, m, "import_specifier"@, false, items.len() as int);
                }
            }
            if let Some(c) = first_named_of_kind(t, i, "export_clause"@) {
                let items = all_named_children(t, c);
                lemma_specifiers_shaped(t, src, items, m, "export_specifier"@, true, items.len() as int);
            }
        }
    }
}

/// Every import or re-export a TypeScript or JavaScript file gives has a
/// local name unless it is a wildcard or side-effect import.
pub proof fn lemma_ts_walk_shaped(t: SyntaxTree, src: Seq<char>, i: int)
    ensures
        all_shaped(ts_walk(t, src, i)),
    decreases t.nodes@.len() - i, 0int,
{
    if 0 <= i < t.nodes@.len() {
        lemma_ts_own_shaped(t, src, i);
        lemma_ts_children_shaped(t, src, i, t.nodes@[i].children@.len() as int);
        lemma_shaped_concat(ts_own_entries(t, src, i), ts_walk_children(t, src, i, t.nodes@[i].children@.len() as int));
    }
}

proof fn lemma_ts_children_shaped(t: SyntaxTree, src: Seq<char>, i: int, k: int)
    ensures
        all_shaped(ts_walk_children(t, src, i, k)),
    decreases t.nodes@.len() - i - 1, k,
{
    if k > 0 && 0 <= i < t.nodes@.len() && k <= t.nodes@[i].children@.len() {
        let c = t.nodes@[i].children@[k - 1] as int;
        lemma_ts_children_shaped(t, src, i, k - 1);
        if i < c < t.nodes@.len() {
            lemma_ts_walk_shaped(t, src, c);
            lemma_shaped_concat(ts_walk_children(t, src, i, k - 1), ts_walk(t, src, c));
        }
    }
}

} // verus!
