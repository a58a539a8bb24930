use corbel::lang::extract::{JavaScriptSupport, LanguageSupport};
use corbel::lang::support::ScopeEntry;
use corbel::symbol::ImportKind;

const SRC: &str = "import React from \"react\";
const x = require(\"commonjs-mod\");

export function App() {
  return <div><Child /><UI.Item /></div>;
}

function helper() { return 1; }

export const Arrow = () => <App />;

class Foo {
  #hidden() {}
  visible() { return helper(); }
}

const handlers = {
  'onClick': {
    run() { return helper(); },
  },
};
";

fn scope(src: &str) -> Vec<ScopeEntry> {
    let support = JavaScriptSupport;
    let mut parser = tree_sitter::Parser::new();
    parser.set_language(&support.grammar()).unwrap();
    let tree = parser.parse(src, None).unwrap();
    support.build_scope(&tree, src).entries
}

#[test]
fn javascript_symbols_have_kinds_and_visibility() {
    let symbols = JavaScriptSupport.extract_symbols(SRC);
    let find = |name: &str| symbols.iter().find(|s| s.name == name).unwrap();
    assert!(find("App").is_public);
    assert_eq!(find("App").kind, "function");
    assert!(!find("helper").is_public);
    assert!(find("Arrow").is_public);
    assert_eq!(find("Arrow").signature.as_deref(), Some("const Arrow = () =>"));
    assert_eq!(find("Foo").kind, "class");
    assert!(!find("Foo").is_public);
    assert!(!find("#hidden").is_public);
    assert!(find("visible").is_public);
    assert_eq!(find("visible").kind, "method");
    assert_eq!(find("visible").owner.as_deref(), Some("Foo"));
    assert_eq!(find("run").owner.as_deref(), Some("onClick"));
}

#[test]
fn javascript_jsx_components_are_references_and_html_tags_are_not() {
    let references = JavaScriptSupport.extract_references(SRC);
    assert!(references.iter().any(|r| r.callee_name == "Child" && r.caller_name.as_deref() == Some("App")));
    assert!(references.iter().any(|r| r.callee_name == "Item" && r.caller_name.as_deref() == Some("App")));
    assert!(references.iter().any(|r| r.callee_name == "App" && r.caller_name.as_deref() == Some("Arrow")));
    assert!(references.iter().any(|r| r.callee_name == "helper" && r.caller_name.as_deref() == Some("visible")));
    assert!(references.iter().any(|r| r.callee_name == "require" && r.caller_name.is_none()));
    assert!(!references.iter().any(|r| r.callee_name == "div"));
}

#[test]
fn commonjs_require_does_not_produce_an_import_entry() {
    let src = "const x = require(\"commonjs-mod\");\n";
    assert!(scope(src).is_empty());
}

#[test]
fn javascript_default_import_is_a_direct_entry() {
    let entries = scope(SRC);
    assert_eq!(entries.len(), 1);
    assert_eq!(entries[0].local_name.as_deref(), Some("React"));
    assert_eq!(entries[0].source_path, "react");
    assert_eq!(entries[0].kind, ImportKind::Direct { aliased: false });
}
