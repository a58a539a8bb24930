use vstd::prelude::*;

use crate::path::RelPath;
use crate::text::str_eq;

verus! {

/// A definition found in a source file.
#[derive(Debug, Clone, PartialEq, Eq)]
pub struct Symbol {
    pub name: String,
    pub kind: String,
    pub line: u32,
    pub signature: Option<String>,
    pub is_public: bool,
    pub owner: Option<String>,
}

/// A call site: the called name, its line, and the definition it sits in.
#[derive(Debug, Clone, PartialEq, Eq)]
pub struct Reference {
    pub callee_name: String,
    pub line: u32,
    pub caller_name: Option<String>,
}

/// How an import brings a name into scope.
#[derive(Debug, Clone, Copy, PartialEq, Eq)]
pub enum ImportKind {
    Direct { aliased: bool },
    Reexport { aliased: bool },
    Wildcard,
    Namespace,
    SideEffect,
}

/// The text an import kind is stored as.
pub open spec fn import_kind_label(kind: ImportKind) -> Seq<char> {
    match kind {
        ImportKind::Direct { aliased: false } => "direct"@,
        ImportKind::Direct { aliased: true } => "direct-aliased"@,
        ImportKind::Reexport { aliased: false } => "reexport"@,
        ImportKind::Reexport { aliased: true } => "reexport-aliased"@,
        ImportKind::Wildcard => "wildcard"@,
        ImportKind::Namespace => "namespace"@,
        ImportKind::SideEffect => "sideeffect"@,
    }
}

/// The import kind stored as `text`, if any.
pub open spec fn import_kind_from_label(text: Seq<char>) -> Option<ImportKind> {
    if text == "direct"@ {
        Some(ImportKind::Direct { aliased: false })
    } else if text == "direct-aliased"@ {
        Some(ImportKind::Direct { aliased: true })
    } else if text == "reexport"@ {
        Some(ImportKind::Reexport { aliased: false })
    } else if text == "reexport-aliased"@ {
        Some(ImportKind::Reexport { aliased: true })
    } else if text == "wildcard"@ {
        Some(ImportKind::Wildcard)
    } else if text == "namespace"@ {
        Some(ImportKind::Namespace)
    } else if text == "sideeffect"@ {
        Some(ImportKind::SideEffect)
    } else {
        None
    }
}

/// The text that did not name an import kind.
#[derive(Debug, Clone, PartialEq, Eq)]
pub struct UnknownImportKind(pub String);

impl UnknownImportKind {
    /// The error message: `unknown import kind: <text>`.
    pub fn message(&self) -> (m: String)
        ensures
            m@ == "unknown import kind: "@ + self.0@,
    {
        let mut m = String::from_str("unknown import kind: ");
        m.append(self.0.as_str());
        m
    }
}

impl ImportKind {
    /// The stored label of this kind.
    pub fn as_str(&self) -> (s: &'static str)
        ensures
            s@ == import_kind_label(*self),
    {
        match self {
            ImportKind::Direct { aliased: false } => "direct",
            ImportKind::Direct { aliased: true } => "direct-aliased",
            ImportKind::Reexport { aliased: false } => "reexport",
            ImportKind::Reexport { aliased: true } => "reexport-aliased",
            ImportKind::Wildcard => "wildcard",
            ImportKind::Namespace => "namespace",
            ImportKind::SideEffect => "sideeffect",
        }
    }

    /// The label as an owned string (what `Display` prints).
    pub fn to_string(&self) -> (s: String)
        ensures
            s@ == import_kind_label(*self),
    {
        String::from_str(self.as_str())
    }

    /// Reads a stored label back; any other text is an error carrying it.
    pub fn parse(s: &str) -> (r: Result<ImportKind, UnknownImportKind>)
        ensures
            r matches Ok(k) ==> import_kind_from_label(s@) == Some(k),
            r matches Err(e) ==> import_kind_from_label(s@) is None && e.0@ == s@,
    {
        if str_eq(s, "direct") {
            Ok(ImportKind::Direct { aliased: false })
        } else if str_eq(s, "direct-aliased") {
            Ok(ImportKind::Direct { aliased: true })
        } else if str_eq(s, "reexport") {
            Ok(ImportKind::Reexport { aliased: false })
        } else if str_eq(s, "reexport-aliased") {
            Ok(ImportKind::Reexport { aliased: true })
        } else if str_eq(s, "wildcard") {
            Ok(ImportKind::Wildcard)
        } else if str_eq(s, "namespace") {
            Ok(ImportKind::Namespace)
        } else if str_eq(s, "sideeffect") {
            Ok(ImportKind::SideEffect)
        } else {
            Err(UnknownImportKind(String::from_str(s)))
        }
    }
}

impl core::str::FromStr for ImportKind {
    type Err = UnknownImportKind;

    fn from_str(s: &str) -> (r: Result<Self, Self::Err>)
        ensures
            r matches Ok(k) ==> import_kind_from_label(s@) == Some(k),
            r matches Err(e) ==> import_kind_from_label(s@) is None && e.0@ == s@,
    {
        ImportKind::parse(s)
    }
}

/// Reading back the stored label of a kind gives that kind.
pub proof fn lemma_import_kind_label_round_trip(kind: ImportKind)
    ensures
        import_kind_from_label(import_kind_label(kind)) == Some(kind),
{
    reveal_strlit("direct");
    reveal_strlit("direct-aliased");
    reveal_strlit("reexport");
    reveal_strlit("reexport-aliased");
    reveal_strlit("wildcard");
    reveal_strlit("namespace");
    reveal_strlit("sideeffect");
    assert("direct"@.len() == 6);
    assert("direct-aliased"@.len() == 14);
    assert("reexport"@.len() == 8);
    assert("reexport-aliased"@.len() == 16);
    assert("wildcard"@.len() == 8);
    assert("namespace"@.len() == 9);
    assert("sideeffect"@.len() == 10);
    assert("wildcard"@[0] != "reexport"@[0]);
}

/// A label that reads back as a kind is that kind's stored label.
pub proof fn lemma_import_kind_label_faithful(text: Seq<char>)
    ensures
        import_kind_from_label(text) matches Some(k) ==> import_kind_label(k) == text,
{
}

/// An import recorded for a file.
#[derive(Debug, Clone, PartialEq, Eq)]
pub struct Import {
    pub local_name: Option<String>,
    pub source_path: String,
    pub kind: ImportKind,
}

/// What parsing one file yields.
#[derive(Debug, Clone, PartialEq, Eq, Default)]
pub struct ParsedFile {
    pub symbols: Vec<Symbol>,
    pub references: Vec<Reference>,
    pub imports: Vec<Import>,
}

/// A parser the indexer can drive: it turns a file's text into symbols,
/// references and imports, and names the extensions it handles.
pub trait FileParser {
    fn parse(&self, path: &RelPath, source: &str) -> ParsedFile;

    fn extensions(&self) -> Vec<String>;
}

} // verus!
