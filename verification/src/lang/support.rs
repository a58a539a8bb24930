use vstd::prelude::*;

pub use crate::symbol::ImportKind;
use crate::text::string_opt;

verus! {

/// A definition as a language extracts it.
#[derive(Debug, Clone, PartialEq, Eq)]
pub struct RawSymbol {
    pub name: String,
    pub kind: String,
    pub line: u32,
    pub signature: Option<String>,
    pub is_public: bool,
    pub owner: Option<String>,
}

/// A definition as plain values.
pub struct RawSymbolView {
    pub name: Seq<char>,
    pub kind: Seq<char>,
    pub line: u32,
    pub signature: Option<Seq<char>>,
    pub is_public: bool,
    pub owner: Option<Seq<char>>,
}

impl View for RawSymbol {
    type V = RawSymbolView;

    open spec fn view(&self) -> RawSymbolView {
        RawSymbolView {
            name: self.name@,
            kind: self.kind@,
            line: self.line,
            signature: string_opt(self.signature),
            is_public: self.is_public,
            owner: string_opt(self.owner),
        }
    }
}

/// A call site as a language extracts it.
#[derive(Debug, Clone, PartialEq, Eq)]
pub struct RawReference {
    pub callee_name: String,
    pub line: u32,
    pub caller_name: Option<String>,
}

/// A call site as plain values.
pub struct RawReferenceView {
    pub callee_name: Seq<char>,
    pub line: u32,
    pub caller_name: Option<Seq<char>>,
}

impl View for RawReference {
    type V = RawReferenceView;

    open spec fn view(&self) -> RawReferenceView {
        RawReferenceView {
            callee_name: self.callee_name@,
            line: self.line,
            caller_name: string_opt(self.caller_name),
        }
    }
}

/// A name an import statement brings into scope.
#[derive(Debug, Clone, PartialEq, Eq)]
pub struct ScopeEntry {
    pub local_name: Option<String>,
    pub source_path: String,
    pub kind: ImportKind,
}

/// An import entry as plain values.
pub struct ScopeEntryView {
    pub local_name: Option<Seq<char>>,
    pub source_path: Seq<char>,
    pub kind: ImportKind,
}

impl View for ScopeEntry {
    type V = ScopeEntryView;

    open spec fn view(&self) -> ScopeEntryView {
        ScopeEntryView { local_name: string_opt(self.local_name), source_path: self.source_path@, kind: self.kind }
    }
}

/// The views of a list of entries.
pub open spec fn entries_view(v: Seq<ScopeEntry>) -> Seq<ScopeEntryView> {
    v.map_values(|e: ScopeEntry| e@)
}

/// Appends `e` to `entries`.
pub fn push_entry(entries: &mut Vec<ScopeEntry>, e: ScopeEntry)
    ensures
        entries_view(final(entries)@) == entries_view(old(entries)@).push(e@),
{
    let ghost before = entries@;
    entries.push(e);
    assert(entries_view(entries@) =~= entries_view(before).push(e@));
}

/// An import entry has a local name exactly when it binds one: wildcard and
/// side-effect imports bind none.
pub open spec fn entry_shaped(e: ScopeEntryView) -> bool {
    (e.local_name is None) <==> (e.kind == ImportKind::Wildcard || e.kind == ImportKind::SideEffect)
}

/// Every entry of `es` is shaped.
pub open spec fn all_shaped(es: Seq<ScopeEntryView>) -> bool {
    forall|i: int| 0 <= i < es.len() ==> entry_shaped(#[trigger] es[i])
}

/// Joining shaped entries keeps them shaped.
pub proof fn lemma_shaped_concat(a: Seq<ScopeEntryView>, b: Seq<ScopeEntryView>)
    requires
        all_shaped(a),
        all_shaped(b),
    ensures
        all_shaped(a + b),
{
    assert forall|i: int| 0 <= i < (a + b).len() implies entry_shaped(#[trigger] (a + b)[i]) by {
        if i < a.len() {
            assert((a + b)[i] == a[i]);
        } else {
            assert((a + b)[i] == b[i - a.len()]);
        }
    }
}

/// The imports of one file, in source order.
#[derive(Debug, Clone, PartialEq, Eq, Default)]
pub struct ScopeTable {
    pub entries: Vec<ScopeEntry>,
}

} // verus!
