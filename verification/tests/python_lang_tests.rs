use corbel::lang::extract::{LanguageSupport, PythonSupport};
use corbel::lang::support::{ImportKind, ScopeEntry};

const SRC: &str = "import os
import os.path
import numpy as np
from collections import OrderedDict
from a.b import c as d
from . import sibling
from .. import parent
from pkg import (x, y)
from mod import *

def add(a, b):
    return helper(a, b)

def _helper(a, b):
    return a + b

class Point(Base):
    def __init__(self, x):
        self.x = x

    def _private(self):
        return self.norm()

    class Inner:
        def method(self):
            pass
";

fn scope(src: &str) -> Vec<ScopeEntry> {
    let support = PythonSupport;
    let mut parser = tree_sitter::Parser::new();
    parser.set_language(&support.grammar()).unwrap();
    let tree = parser.parse(src, None).unwrap();
    support.build_scope(&tree, src).entries
}

fn has(entries: &[ScopeEntry], local: Option<&str>, path: &str, kind: ImportKind) -> bool {
    entries
        .iter()
        .any(|e| e.local_name.as_deref() == local && e.source_path == path && e.kind == kind)
}

#[test]
fn python_symbols_have_kinds_lines_and_visibility() {
    let symbols = PythonSupport.extract_symbols(SRC);
    assert_eq!(symbols.len(), 7);

    let add = symbols.iter().find(|s| s.name == "add").unwrap();
    assert_eq!(add.kind, "function");
    assert_eq!(add.line, 11);
    assert!(add.is_public);
    assert_eq!(add.signature.as_deref(), Some("def add(a, b):"));
    assert_eq!(add.owner, None);

    let helper = symbols.iter().find(|s| s.name == "_helper").unwrap();
    assert!(!helper.is_public);

    let point = symbols.iter().find(|s| s.name == "Point").unwrap();
    assert_eq!(point.kind, "class");
    assert_eq!(point.signature.as_deref(), Some("class Point(Base):"));

    let init = symbols.iter().find(|s| s.name == "__init__").unwrap();
    assert!(init.is_public);
    assert_eq!(init.owner.as_deref(), Some("Point"));

    let private = symbols.iter().find(|s| s.name == "_private").unwrap();
    assert!(!private.is_public);
    assert_eq!(private.owner.as_deref(), Some("Point"));

    let method = symbols.iter().find(|s| s.name == "method").unwrap();
    assert_eq!(method.owner.as_deref(), Some("Point.Inner"));
}

#[test]
fn python_calls_are_attributed_to_enclosing_function() {
    let references = PythonSupport.extract_references(SRC);
    let helper = references.iter().find(|r| r.callee_name == "helper").unwrap();
    assert_eq!(helper.caller_name.as_deref(), Some("add"));
    assert_eq!(helper.line, 12);
    let norm = references.iter().find(|r| r.callee_name == "norm").unwrap();
    assert_eq!(norm.caller_name.as_deref(), Some("_private"));
}

#[test]
fn python_imports_map_to_scope_entries() {
    let entries = scope(SRC);
    assert!(has(&entries, Some("os"), "os", ImportKind::Direct { aliased: false }));
    assert!(has(&entries, Some("os"), "os.path", ImportKind::Direct { aliased: false }));
    assert!(has(&entries, Some("np"), "numpy", ImportKind::Direct { aliased: true }));
    assert!(has(&entries, Some("OrderedDict"), "collections.OrderedDict", ImportKind::Direct { aliased: false }));
    assert!(has(&entries, Some("d"), "a.b.c", ImportKind::Direct { aliased: true }));
    assert!(has(&entries, Some("sibling"), ".sibling", ImportKind::Direct { aliased: false }));
    assert!(has(&entries, Some("parent"), "..parent", ImportKind::Direct { aliased: false }));
    assert!(has(&entries, Some("x"), "pkg.x", ImportKind::Direct { aliased: false }));
    assert!(has(&entries, Some("y"), "pkg.y", ImportKind::Direct { aliased: false }));
    assert!(has(&entries, None, "mod", ImportKind::Wildcard));
    assert_eq!(entries.len(), 10);
}
