use corbel::lang::extract::{LanguageSupport, TsxSupport, TypeScriptSupport};
use corbel::lang::support::{ImportKind, ScopeEntry};

const SRC: &str = "import defaultExport from \"moduleA\";
import { a, b as b2 } from \"moduleB\";
import * as ns from \"moduleD\";
import \"moduleG\";
export { x } from \"moduleE\";
export { p as q } from \"moduleH\";
export * from \"moduleF\";

export function add(a: number, b: number): number {
  return helper(a, b);
}

function helper(a: number, b: number): number {
  return a + b;
}

export const arrowFn = (a: number): number => {
  return a * 2;
};

export interface Shape {
  area(): number;
}

type Id = string;

enum Color { Red, Green }

export class Point {
  private secret(): void {}
  public shown(): number {
    return this.secret2();
  }
  constructor() {
    new Thing();
  }
}
";

const TSX_SRC: &str = "export function Comp() {
  return <div><Child /><UI.Item /></div>;
}

export const Arrow = () => <Comp />;

function plain() {
  return helper();
}

class Widget {
  render() {
    return plain();
  }
}
";

fn scope<S: LanguageSupport>(support: &S, src: &str) -> Vec<ScopeEntry> {
    let mut parser = tree_sitter::Parser::new();
    parser.set_language(&support.grammar()).unwrap();
    let tree = parser.parse(src, None).unwrap();
    support.build_scope(&tree, src).entries
}

fn has(entries: &[ScopeEntry], local: Option<&str>, path: &str, kind: ImportKind) -> bool {
    entries
        .iter()
        .any(|e| e.local_name.as_deref() == local && e.source_path == path && e.kind == kind)
}

#[test]
fn typescript_symbols_have_kinds_and_visibility() {
    let symbols = TypeScriptSupport.extract_symbols(SRC);
    let find = |name: &str| symbols.iter().find(|s| s.name == name).unwrap();

    assert_eq!(find("add").kind, "function");
    assert!(find("add").is_public);
    assert_eq!(find("add").line, 9);
    assert_eq!(find("add").signature.as_deref(), Some("function add(a: number, b: number): number"));
    assert!(!find("helper").is_public);
    assert_eq!(find("arrowFn").kind, "function");
    assert!(find("arrowFn").is_public);
    assert_eq!(find("arrowFn").signature.as_deref(), Some("const arrowFn = (a: number): number =>"));
    assert_eq!(find("Shape").kind, "interface");
    assert_eq!(find("Shape").signature.as_deref(), Some("interface Shape { area(): number; }"));
    assert_eq!(find("Id").kind, "type");
    assert!(!find("Id").is_public);
    assert_eq!(find("Color").kind, "enum");
    assert_eq!(find("Point").kind, "class");
    assert!(find("Point").is_public);
    assert_eq!(find("secret").kind, "method");
    assert!(!find("secret").is_public);
    assert!(find("shown").is_public);
    assert!(find("constructor").is_public);
    assert_eq!(find("shown").owner.as_deref(), Some("Point"));
    assert_eq!(find("add").owner, None);
}

#[test]
fn typescript_calls_are_attributed_to_enclosing_function_or_method() {
    let references = TypeScriptSupport.extract_references(SRC);
    let caller_of = |callee: &str| {
        references
            .iter()
            .find(|r| r.callee_name == callee)
            .unwrap()
            .caller_name
            .clone()
    };
    assert_eq!(caller_of("helper").as_deref(), Some("add"));
    assert_eq!(caller_of("secret2").as_deref(), Some("shown"));
    assert_eq!(caller_of("Thing").as_deref(), Some("constructor"));
}

#[test]
fn typescript_imports_and_re_exports_map_to_scope_entries() {
    let entries = scope(&TypeScriptSupport, SRC);
    assert!(has(&entries, Some("defaultExport"), "moduleA", ImportKind::Direct { aliased: false }));
    assert!(has(&entries, Some("a"), "moduleB.a", ImportKind::Direct { aliased: false }));
    assert!(has(&entries, Some("b2"), "moduleB.b", ImportKind::Direct { aliased: true }));
    assert!(has(&entries, Some("ns"), "moduleD", ImportKind::Namespace));
    assert!(has(&entries, None, "moduleG", ImportKind::SideEffect));
    assert!(has(&entries, Some("x"), "moduleE.x", ImportKind::Reexport { aliased: false }));
    assert!(has(&entries, Some("q"), "moduleH.p", ImportKind::Reexport { aliased: true }));
    assert!(has(&entries, None, "moduleF", ImportKind::Wildcard));
    assert_eq!(entries.len(), 8);
}

#[test]
fn tsx_component_usage_is_captured_and_attributed() {
    let references = TsxSupport.extract_references(TSX_SRC);
    let child: Vec<_> = references.iter().filter(|r| r.callee_name == "Child").collect();
    assert_eq!(child.len(), 1);
    assert_eq!(child[0].caller_name.as_deref(), Some("Comp"));
    assert!(references.iter().any(|r| r.callee_name == "Item" && r.caller_name.as_deref() == Some("Comp")));
    assert!(!references.iter().any(|r| r.callee_name == "div"));
    assert!(references.iter().any(|r| r.callee_name == "Comp" && r.caller_name.as_deref() == Some("Arrow")));
    assert!(references.iter().any(|r| r.callee_name == "helper" && r.caller_name.as_deref() == Some("plain")));
    assert!(references.iter().any(|r| r.callee_name == "plain" && r.caller_name.as_deref() == Some("render")));
}

#[test]
fn tsx_symbols_follow_typescript_rules() {
    let symbols = TsxSupport.extract_symbols(TSX_SRC);
    let find = |name: &str| symbols.iter().find(|s| s.name == name).unwrap();
    assert_eq!(symbols.len(), 5);
    assert!(find("Comp").is_public);
    assert!(find("Arrow").is_public);
    assert!(!find("plain").is_public);
    assert!(!find("Comp").signature.as_deref().unwrap().contains("<div"));
    assert_eq!(find("render").owner.as_deref(), Some("Widget"));
    assert_eq!(find("plain").owner, None);
}
