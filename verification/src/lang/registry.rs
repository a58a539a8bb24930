use vstd::prelude::*;

use crate::lang::extract::{
    extensions_of, is_symbol_kind, references_extracted, references_view, scope_extracted, symbols_extracted,
    symbols_view,
};
use crate::lang::ts::Grammar;
use crate::path::RelPath;
use crate::lang::support::{all_shaped, entries_view, entry_shaped, RawReferenceView, RawSymbolView, ScopeEntryView};
use crate::symbol::{FileParser, Import, ImportKind, ParsedFile, Reference, Symbol};
use crate::text::{chars_eq, chars_of, string_from_chars, string_opt};
use crate::walk::{extension_of, path_extension};

verus! {

/// Why a language could not be registered.
#[derive(Debug, Clone, PartialEq, Eq)]
pub enum RegistryError {
    ExtensionAlreadyRegistered { extension: String },
}

impl RegistryError {
    /// The error message: `extension "<ext>" is already registered`.
    pub fn message(&self) -> (m: String)
        ensures
            m@ == (match self {
                RegistryError::ExtensionAlreadyRegistered { extension } => "extension \""@ + extension@ + "\" is already registered"@,
            }),
    {
        match self {
            RegistryError::ExtensionAlreadyRegistered { extension } => {
                let mut m = String::from_str("extension \"");
                m.append(extension.as_str());
                m.append("\" is already registered");
                m
            },
        }
    }

    /// The error message (what `Display` prints).
    pub fn to_string(&self) -> (m: String)
        ensures
            m@ == (match self {
                RegistryError::ExtensionAlreadyRegistered { extension } => "extension \""@ + extension@ + "\" is already registered"@,
            }),
    {
        self.message()
    }
}

/// `c` with ASCII capitals made lower case.
pub open spec fn ascii_lower_char(c: char) -> char {
    if 'A' <= c && c <= 'Z' {
        ((c as u32) + 32) as char
    } else {
        c
    }
}

/// A copy of `s`.
fn slice_copy(s: &[char]) -> (out: Vec<char>)
    ensures
        out@ == s@,
{
    crate::text::slice_chars(s, 0, s.len())
}

/// `s` with ASCII capitals made lower case.
pub open spec fn ascii_lower(s: Seq<char>) -> Seq<char> {
    s.map_values(|c: char| ascii_lower_char(c))
}

/// Every registered extension is found by `for_extension` in any ASCII
/// case: a text `v` that lower-cases to a registered extension `e` selects
/// the language registered for `e`.
pub proof fn lemma_registered_found_in_any_case(reg: LanguageRegistry, e: Seq<char>, v: Seq<char>)
    requires
        reg.extension_list().contains(e),
        ascii_lower(v) == e,
    ensures
        reg.lookup(ascii_lower(v)) is Some,
        reg.lookup(ascii_lower(v)) == reg.lookup(e),
{
    let table = reg.by_extension@;
    let x = choose|x: int| 0 <= x < table_keys(table).len() && table_keys(table)[x] == e;
    assert(table[x].0@ == e);
    lemma_row_of_present(table, e, 0, x);
}

/// An extension is looked up exactly when it is listed among the
/// registered extensions.
pub proof fn lemma_lookup_iff_listed(reg: LanguageRegistry, e: Seq<char>)
    ensures
        reg.lookup(e) is Some <==> reg.extension_list().contains(e),
{
    let table = reg.by_extension@;
    lemma_row_of_found(table, e, 0);
    if reg.extension_list().contains(e) {
        let x = choose|x: int| 0 <= x < table_keys(table).len() && table_keys(table)[x] == e;
        assert(table[x].0@ == e);
        lemma_row_of_present(table, e, 0, x);
    }
    if let Some(k) = row_of_from(table, e, 0) {
        assert(table_keys(table)[k] == e);
    }
}

/// Lower-casing twice is lower-casing once, so an extension and its
/// lower-case form select the same language.
pub proof fn lemma_ascii_lower_idempotent(s: Seq<char>)
    ensures
        ascii_lower(ascii_lower(s)) == ascii_lower(s),
{
    assert forall|i: int| 0 <= i < s.len() implies #[trigger] ascii_lower(ascii_lower(s))[i] == ascii_lower(s)[i] by {
        let c = s[i];
        if 'A' <= c && c <= 'Z' {
            assert(((c as u32) + 32) as char >= 'a');
        }
    }
    assert(ascii_lower(ascii_lower(s)) =~= ascii_lower(s));
}

/// `c` with an ASCII capital made lower case (what `char::to_ascii_lowercase`
/// does).
fn char_to_ascii_lowercase(c: char) -> (r: char)
    ensures
        r == ascii_lower_char(c),
{
    if 'A' <= c && c <= 'Z' {
        let b: u8 = c as u8;
        assert(b as u32 == c as u32);
        let lower: u8 = b + 32;
        lower as char
    } else {
        c
    }
}

/// The characters of `s` with ASCII capitals made lower case.
pub fn to_ascii_lowercase(s: &str) -> (out: Vec<char>)
    ensures
        out@ == ascii_lower(s@),
{
    let cs = chars_of(s);
    let mut out: Vec<char> = Vec::new();
    let mut k: usize = 0;
    while k < cs.len()
        invariant
            k <= cs@.len(),
            cs@ == s@,
            out@ == ascii_lower(cs@.take(k as int)),
        decreases cs@.len() - k,
    {
        out.push(char_to_ascii_lowercase(cs[k]));
        assert(ascii_lower(cs@.take((k + 1) as int)) =~= ascii_lower(cs@.take(k as int)).push(ascii_lower_char(cs@[k as int])));
        k = k + 1;
    }
    assert(cs@.take(cs@.len() as int) =~= cs@);
    out
}

/// A stored symbol as the extracted symbol it came from.
pub open spec fn symbols_as_raw(v: Seq<Symbol>) -> Seq<RawSymbolView> {
    v.map_values(
        |s: Symbol|
            RawSymbolView {
                name: s.name@,
                kind: s.kind@,
                line: s.line,
                signature: string_opt(s.signature),
                is_public: s.is_public,
                owner: string_opt(s.owner),
            },
    )
}

/// Stored call sites as the extracted references they came from.
pub open spec fn references_as_raw(v: Seq<Reference>) -> Seq<RawReferenceView> {
    v.map_values(
        |r: Reference| RawReferenceView { callee_name: r.callee_name@, line: r.line, caller_name: string_opt(r.caller_name) },
    )
}

/// Stored imports as the import entries they came from.
pub open spec fn imports_as_entries(v: Seq<Import>) -> Seq<ScopeEntryView> {
    v.map_values(|i: Import| ScopeEntryView { local_name: string_opt(i.local_name), source_path: i.source_path@, kind: i.kind })
}

fn clone_string_opt(o: &Option<String>) -> (c: Option<String>)
    ensures
        c == *o,
{
    match o {
        Some(s) => Some(s.clone()),
        None => None,
    }
}

/// What registering `language` with `before` gives (see
/// `LanguageRegistry::register`): refused, with nothing changed, naming the
/// first of its lower-cased extensions registered already; otherwise the
/// language appended, its new extensions listed after the old ones, and each
/// of its extensions looked up to it.
pub open spec fn register_outcome(
    before: LanguageRegistry,
    language: Grammar,
    r: Result<(), RegistryError>,
    after: LanguageRegistry,
) -> bool {
    let exts = lowered(extensions_of(language));
    match first_taken_from(before, exts, 0) {
        Some(j) => r matches Err(RegistryError::ExtensionAlreadyRegistered { extension }) && extension@ == exts[j] && after
            == before,
        None => r is Ok && after.languages() == before.languages().push(language) && after.extension_list() == append_new(
            before.extension_list(),
            exts,
            exts.len() as int,
        ) && forall|e: Seq<char>| #[trigger] after.lookup(e) == (if exts.contains(e) {
            Some(language)
        } else {
            before.lookup(e)
        }),
    }
}

proof fn lemma_first_taken_none(reg: LanguageRegistry, exts: Seq<Seq<char>>, j: int)
    requires
        0 <= j <= exts.len(),
    ensures
        first_taken_from(reg, exts, j) is None <==> forall|k: int| j <= k < exts.len() ==> (#[trigger] reg.lookup(exts[k])) is None,
    decreases exts.len() - j,
{
    if j < exts.len() {
        lemma_first_taken_none(reg, exts, j + 1);
    }
}

proof fn lemma_push_contains(s: Seq<Seq<char>>, a: Seq<char>, e: Seq<char>)
    ensures
        s.push(a).contains(e) <==> s.contains(e) || a == e,
{
    let t = s.push(a);
    if s.contains(e) {
        let x = choose|x: int| 0 <= x < s.len() && s[x] == e;
        assert(t[x] == e);
    }
    if a == e {
        assert(t[s.len() as int] == e);
    }
    if t.contains(e) {
        let x = choose|x: int| 0 <= x < t.len() && t[x] == e;
        if x < s.len() {
            assert(s[x] == e);
        }
    }
}

proof fn lemma_append_new_contains(base: Seq<Seq<char>>, exts: Seq<Seq<char>>, k: int, e: Seq<char>)
    requires
        0 <= k <= exts.len(),
    ensures
        append_new(base, exts, k).contains(e) <==> base.contains(e) || exts.take(k).contains(e),
    decreases k,
{
    if k == 0 {
        assert(exts.take(0) =~= Seq::<Seq<char>>::empty());
    } else {
        lemma_append_new_contains(base, exts, k - 1, e);
        let r = append_new(base, exts, k - 1);
        let a = exts[k - 1];
        let prev = exts.take(k - 1);
        assert(exts.take(k) =~= prev.push(a));
        lemma_push_contains(prev, a, e);
        lemma_push_contains(r, a, e);
        if r.contains(a) {
            assert(append_new(base, exts, k) == r);
        } else {
            assert(append_new(base, exts, k) == r.push(a));
        }
    }
}

/// Registering a language succeeds exactly when none of its lower-cased
/// extensions is registered already. On success the registered extensions
/// are the old ones and the new language's, and each of the new language's
/// extensions, written in any ASCII case, selects that language; on failure
/// the registry is unchanged.
pub proof fn lemma_register_law(
    before: LanguageRegistry,
    language: Grammar,
    r: Result<(), RegistryError>,
    after: LanguageRegistry,
)
    requires
        register_outcome(before, language, r, after),
    ensures
        r is Ok <==> forall|k: int|
            0 <= k < extensions_of(language).len() ==> !before.extension_list().contains(
                #[trigger] ascii_lower(extensions_of(language)[k]),
            ),
        r is Ok ==> forall|e: Seq<char>|
            #[trigger] after.extension_list().contains(e) <==> (before.extension_list().contains(e) || lowered(
                extensions_of(language),
            ).contains(e)),
        r is Ok ==> forall|k: int, v: Seq<char>|
            0 <= k < extensions_of(language).len() && #[trigger] ascii_lower(v) == #[trigger] ascii_lower(
                extensions_of(language)[k],
            ) ==> after.lookup(ascii_lower(v)) == Some(language),
        r is Err ==> after == before,
{
    let exts = lowered(extensions_of(language));
    assert forall|k: int| 0 <= k < extensions_of(language).len() implies exts[k] == ascii_lower(
        #[trigger] extensions_of(language)[k],
    ) by {}
    lemma_first_taken_none(before, exts, 0);
    assert forall|k: int| 0 <= k < exts.len() implies (before.lookup(exts[k]) is None <==> !before.extension_list().contains(
        exts[k],
    )) by {
        lemma_lookup_iff_listed(before, exts[k]);
    }
    assert((r is Ok) == (forall|k: int| 0 <= k < exts.len() ==> (#[trigger] before.lookup(exts[k])) is None));
    if r is Ok {
        assert forall|e: Seq<char>| #[trigger] after.extension_list().contains(e) <==> (before.extension_list().contains(e)
            || exts.contains(e)) by {
            lemma_append_new_contains(before.extension_list(), exts, exts.len() as int, e);
            assert(exts.take(exts.len() as int) =~= exts);
        }
        assert forall|k: int, v: Seq<char>|
            0 <= k < extensions_of(language).len() && #[trigger] ascii_lower(v) == #[trigger] ascii_lower(
                extensions_of(language)[k],
            ) implies after.lookup(ascii_lower(v)) == Some(language) by {
            assert(exts[k] == ascii_lower(extensions_of(language)[k]));
            assert(exts.contains(ascii_lower(v)));
        }
    }
}

/// The registered languages, and for each lower-case extension the index of
/// the language that reads it.
pub struct LanguageRegistry {
    languages: Vec<Grammar>,
    by_extension: Vec<(Vec<char>, usize)>,
}

/// The extension table: no extension twice, each pointing at a registered
/// language.
pub open spec fn table_wf(languages: Seq<Grammar>, table: Seq<(Vec<char>, usize)>) -> bool {
    &&& forall|k: int| 0 <= k < table.len() ==> #[trigger] table[k].1 < languages.len()
    &&& forall|a: int, b: int| 0 <= a < b < table.len() ==> (#[trigger] table[a]).0@ != (#[trigger] table[b]).0@
}

/// Among table rows `k..`, the first with extension `ext`.
pub open spec fn row_of_from(table: Seq<(Vec<char>, usize)>, ext: Seq<char>, k: int) -> Option<int>
    decreases table.len() - k,
{
    if k < 0 || k >= table.len() {
        None
    } else if table[k].0@ == ext {
        Some(k)
    } else {
        row_of_from(table, ext, k + 1)
    }
}

/// The lower-case extensions of the first `n` of a language's extensions.
pub open spec fn lowered(exts: Seq<Seq<char>>) -> Seq<Seq<char>> {
    exts.map_values(|e: Seq<char>| ascii_lower(e))
}

/// Which language a table sends an extension to.
pub open spec fn lookup_in(languages: Seq<Grammar>, table: Seq<(Vec<char>, usize)>, ext: Seq<char>) -> Option<Grammar> {
    match row_of_from(table, ext, 0) {
        Some(k) => Some(languages[table[k].1 as int]),
        None => None,
    }
}

/// The extensions of a table, in order.
pub open spec fn table_keys(table: Seq<(Vec<char>, usize)>) -> Seq<Seq<char>> {
    table.map_values(|r: (Vec<char>, usize)| r.0@)
}

/// `base` followed by those of the first `k` extensions it does not hold yet.
pub open spec fn append_new(base: Seq<Seq<char>>, exts: Seq<Seq<char>>, k: int) -> Seq<Seq<char>>
    decreases k,
{
    if k <= 0 || k > exts.len() {
        base
    } else {
        let r = append_new(base, exts, k - 1);
        if r.contains(exts[k - 1]) {
            r
        } else {
            r.push(exts[k - 1])
        }
    }
}

/// Among extensions `j..`, the first that `lookup` already knows.
pub open spec fn first_taken_from(reg: LanguageRegistry, exts: Seq<Seq<char>>, j: int) -> Option<int>
    decreases exts.len() - j,
{
    if j < 0 || j >= exts.len() {
        None
    } else if reg.lookup(exts[j]) is Some {
        Some(j)
    } else {
        first_taken_from(reg, exts, j + 1)
    }
}

/// A row appended to the table is found only where no earlier row matches.
proof fn lemma_row_of_push(table: Seq<(Vec<char>, usize)>, row: (Vec<char>, usize), e: Seq<char>, k: int)
    requires
        0 <= k <= table.len(),
    ensures
        row_of_from(table.push(row), e, k) == (match row_of_from(table, e, k) {
            Some(x) => Some(x),
            None => if row.0@ == e {
                Some(table.len() as int)
            } else {
                None
            },
        }),
    decreases table.len() - k,
{
    if k < table.len() {
        assert(table.push(row)[k] == table[k]);
        lemma_row_of_push(table, row, e, k + 1);
    } else {
        assert(table.push(row)[k] == row);
        assert(row_of_from(table.push(row), e, k + 1) is None);
    }
}

/// A row found in the table carries the searched extension.
proof fn lemma_row_of_found(table: Seq<(Vec<char>, usize)>, e: Seq<char>, k: int)
    ensures
        row_of_from(table, e, k) matches Some(x) ==> 0 <= x < table.len() && table[x].0@ == e,
    decreases table.len() - k,
{
    if 0 <= k < table.len() && table[k].0@ != e {
        lemma_row_of_found(table, e, k + 1);
    }
}

/// An extension held by some row is found.
proof fn lemma_row_of_present(table: Seq<(Vec<char>, usize)>, e: Seq<char>, k: int, x: int)
    requires
        0 <= k <= x < table.len(),
        table[x].0@ == e,
    ensures
        row_of_from(table, e, k) is Some,
    decreases x - k,
{
    if table[k].0@ != e {
        lemma_row_of_present(table, e, k + 1, x);
    }
}

/// The row of a table holding extension `ext`.
fn find_row_in(table: &Vec<(Vec<char>, usize)>, ext: &[char]) -> (r: Option<usize>)
    ensures
        r matches Some(k) ==> k < table@.len() && row_of_from(table@, ext@, 0) == Some(k as int),
        r is None ==> row_of_from(table@, ext@, 0) is None,
{
    let mut k: usize = 0;
    while k < table.len()
        invariant
            k <= table@.len(),
            row_of_from(table@, ext@, k as int) == row_of_from(table@, ext@, 0),
        decreases table@.len() - k,
    {
        if chars_eq(table[k].0.as_slice(), ext) {
            return Some(k);
        }
        k = k + 1;
    }
    None
}

impl LanguageRegistry {
    #[verifier::type_invariant]
    spec fn wf(self) -> bool {
        table_wf(self.languages@, self.by_extension@)
    }

    /// The registered languages, in order.
    pub closed spec fn languages(self) -> Seq<Grammar> {
        self.languages@
    }

    /// The registered extensions, in registration order.
    pub closed spec fn extension_list(self) -> Seq<Seq<char>> {
        table_keys(self.by_extension@)
    }

    /// Which language reads an extension (lower case), if any.
    pub closed spec fn lookup(self, ext: Seq<char>) -> Option<Grammar> {
        lookup_in(self.languages@, self.by_extension@, ext)
    }

    /// An empty registry.
    pub fn new() -> (r: Self)
        ensures
            r.languages().len() == 0,
            r.extension_list().len() == 0,
            forall|e: Seq<char>| r.lookup(e) is None,
    {
        LanguageRegistry { languages: Vec::new(), by_extension: Vec::new() }
    }

    fn find_row(&self, ext: &[char]) -> (r: Option<usize>)
        ensures
            r matches Some(k) ==> k < self.by_extension@.len() && row_of_from(self.by_extension@, ext@, 0) == Some(k as int),
            r is None ==> row_of_from(self.by_extension@, ext@, 0) is None,
    {
        find_row_in(&self.by_extension, ext)
    }

    /// The language that reads extension `ext`, compared without regard to
    /// ASCII case.
    pub fn for_extension(&self, ext: &str) -> (r: Option<Grammar>)
        ensures
            r == self.lookup(ascii_lower(ext@)),
    {
        proof {
            use_type_invariant(self);
        }
        let lower = to_ascii_lowercase(ext);
        match self.find_row(lower.as_slice()) {
            Some(k) => Some(self.languages[self.by_extension[k].1]),
            None => None,
        }
    }

    /// The language that reads the file at `path`, by its extension.
    pub fn for_path(&self, path: &str) -> (r: Option<Grammar>)
        ensures
            r == (match path_extension(path@) {
                Some(e) => self.lookup(ascii_lower(e)),
                None => None,
            }),
    {
        match extension_of(path) {
            Some(e) => self.for_extension(e.as_str()),
            None => None,
        }
    }

    /// Registers `language` for its extensions (lower-cased). Refused, with
    /// nothing changed, where one of them is registered already: the error
    /// names the first such extension.
    pub fn register(&mut self, language: Grammar) -> (r: Result<(), RegistryError>)
        ensures
            register_outcome(*old(self), language, r, *final(self)),
    {
        proof {
            use_type_invariant(&*self);
        }
        let ghost exts = lowered(extensions_of(language));
        let raw = language.extensions();
        let mut lower: Vec<Vec<char>> = Vec::new();
        let mut j: usize = 0;
        while j < raw.len()
            invariant
                j <= raw@.len(),
                raw@.map_values(|s: &'static str| s@) == extensions_of(language),
                exts == lowered(extensions_of(language)),
                lower@.len() == j,
                forall|q: int| 0 <= q < j ==> (#[trigger] lower@[q])@ == exts[q],
                forall|q: int| 0 <= q < j ==> self.lookup(exts[q]) is None,
                first_taken_from(*self, exts, j as int) == first_taken_from(*self, exts, 0),
            decreases raw@.len() - j,
        {
            let e = to_ascii_lowercase(raw[j]);
            assert(e@ == exts[j as int]);
            if let Some(_) = self.find_row(e.as_slice()) {
                return Err(RegistryError::ExtensionAlreadyRegistered { extension: string_from_chars(e.as_slice()) });
            }
            lower.push(e);
            j = j + 1;
        }
        let ghost before = *self;
        let mut table: Vec<(Vec<char>, usize)> = Vec::new();
        std::mem::swap(&mut table, &mut self.by_extension);
        let mut langs: Vec<Grammar> = Vec::new();
        std::mem::swap(&mut langs, &mut self.languages);
        let index = langs.len();
        langs.push(language);
        assert forall|e: Seq<char>| #[trigger] lookup_in(langs@, table@, e) == before.lookup(e) by {
            lemma_row_of_found(table@, e, 0);
        }
        let mut k: usize = 0;
        while k < lower.len()
            invariant
                k <= lower@.len(),
                lower@.len() == exts.len(),
                forall|q: int| 0 <= q < exts.len() ==> (#[trigger] lower@[q])@ == exts[q],
                forall|q: int| 0 <= q < exts.len() ==> before.lookup(exts[q]) is None,
                index == before.languages@.len(),
                langs@ == before.languages@.push(language),
                table_wf(langs@, table@),
                table_keys(table@) == append_new(before.extension_list(), exts, k as int),
                forall|e: Seq<char>| #[trigger] lookup_in(langs@, table@, e) == (if exts.take(k as int).contains(e) {
                    Some(language)
                } else {
                    before.lookup(e)
                }),
            decreases lower@.len() - k,
        {
            let ghost cur = table@;
            let e = &lower[k];
            assert(e@ == exts[k as int]);
            let found = find_row_in(&table, e.as_slice());
            if found.is_none() {
                let row = (slice_copy(e.as_slice()), index);
                table.push(row);
                proof {
                    assert forall|a: int, b: int| 0 <= a < b < table@.len() implies (#[trigger] table@[a]).0@
                        != (#[trigger] table@[b]).0@ by {
                        if b == cur.len() {
                            assert(table@[a] == cur[a]);
                            if cur[a].0@ == e@ {
                                lemma_row_of_present(cur, e@, 0, a);
                            }
                        } else {
                            assert(table@[a] == cur[a]);
                            assert(table@[b] == cur[b]);
                        }
                    }
                    assert forall|x: Seq<char>| #[trigger] lookup_in(langs@, table@, x) == (if exts.take(k + 1).contains(x) {
                        Some(language)
                    } else {
                        before.lookup(x)
                    }) by {
                        lemma_row_of_push(cur, row, x, 0);
                        lemma_row_of_found(cur, x, 0);
                        assert(table@ == cur.push(row));
                        assert(lookup_in(langs@, cur, x) == (if exts.take(k as int).contains(x) {
                            Some(language)
                        } else {
                            before.lookup(x)
                        }));
                        assert(exts.take(k + 1) =~= exts.take(k as int).push(exts[k as int]));
                        assert(exts.take(k + 1).contains(x) == (exts.take(k as int).contains(x) || x == e@)) by {
                            if x == e@ {
                                assert(exts.take(k + 1)[k as int] == x);
                            }
                            if exts.take(k + 1).contains(x) && x != e@ {
                                let q = choose|q: int| 0 <= q < k + 1 && #[trigger] exts.take(k + 1)[q] == x;
                                assert(exts.take(k as int)[q] == x);
                            }
                            if exts.take(k as int).contains(x) {
                                let q = choose|q: int| 0 <= q < k && exts.take(k as int)[q] == x;
                                assert(exts.take(k + 1)[q] == x);
                            }
                        }
                        match row_of_from(cur, x, 0) {
                            Some(y) => {
                                assert(table@[y] == cur[y]);
                            },
                            None => {
                                if x == e@ {
                                    assert(table@[cur.len() as int] == row);
                                    assert(langs@[index as int] == language);
                                }
                            },
                        }
                        if exts.take(k as int).contains(x) && row_of_from(cur, x, 0) is None {
                            let q = choose|q: int| 0 <= q < k && exts.take(k as int)[q] == x;
                            assert(exts[q] == x);
                        }
                        if x == e@ && !exts.take(k as int).contains(x) {
                            assert(before.lookup(x) is None);
                        }
                    }
                    assert(table_keys(table@) =~= table_keys(cur).push(e@));
                    assert(!table_keys(cur).contains(e@)) by {
                        if table_keys(cur).contains(e@) {
                            let a = choose|a: int| 0 <= a < cur.len() && table_keys(cur)[a] == e@;
                            lemma_row_of_present(cur, e@, 0, a);
                        }
                    }
                }
            } else {
                proof {
                    lemma_row_of_found(cur, e@, 0);
                    let x = row_of_from(cur, e@, 0)->0;
                    assert(table_keys(cur).contains(e@)) by {
                        assert(table_keys(cur)[x] == e@);
                    }
                    assert forall|y: Seq<char>| #[trigger] lookup_in(langs@, table@, y) == (if exts.take(k + 1).contains(y) {
                        Some(language)
                    } else {
                        before.lookup(y)
                    }) by {
                        assert(exts.take(k + 1) =~= exts.take(k as int).push(exts[k as int]));
                        if y == e@ && !exts.take(k as int).contains(y) {
                            assert(before.lookup(y) is None);
                            assert(cur[x].1 == index) by {
                                if cur[x].1 != index {
                                    assert(cur[x].1 < before.languages@.len());
                                }
                            }
                        }
                    }
                }
            }
            k = k + 1;
        }
        assert(exts.take(exts.len() as int) =~= exts);
        proof {
            assert(first_taken_from(before, exts, exts.len() as int) is None);
        }
        *self = LanguageRegistry { languages: langs, by_extension: table };
        Ok(())
    }

    /// The registered extensions, in registration order.
    pub fn supported_extensions(&self) -> (r: Vec<String>)
        ensures
            r@.map_values(|s: String| s@) == self.extension_list(),
    {
        let mut r: Vec<String> = Vec::new();
        let mut k: usize = 0;
        while k < self.by_extension.len()
            invariant
                k <= self.by_extension@.len(),
                r@.map_values(|s: String| s@) == self.by_extension@.take(k as int).map_values(|row: (Vec<char>, usize)| row.0@),
            decreases self.by_extension@.len() - k,
        {
            let ghost prev = r@;
            let s = string_from_chars(self.by_extension[k].0.as_slice());
            r.push(s);
            assert(r@ == prev.push(s));
            assert(r@.map_values(|s: String| s@) =~= prev.map_values(|s: String| s@).push(s@));
            assert(self.by_extension@.take((k + 1) as int) =~= self.by_extension@.take(k as int).push(self.by_extension@[k as int]));
            assert(r@.map_values(|s: String| s@) =~= self.by_extension@.take((k + 1) as int).map_values(|row: (Vec<char>, usize)| row.0@));
            k = k + 1;
        }
        assert(self.by_extension@.take(self.by_extension@.len() as int) =~= self.by_extension@);
        r
    }
}

/// The language each built-in extension is read with.
pub open spec fn builtin_language(e: Seq<char>) -> Option<Grammar> {
    if e == "rs"@ {
        Some(Grammar::Rust)
    } else if e == "py"@ {
        Some(Grammar::Python)
    } else if e == "ts"@ {
        Some(Grammar::TypeScript)
    } else if e == "tsx"@ {
        Some(Grammar::Tsx)
    } else if e == "js"@ || e == "jsx"@ || e == "mjs"@ || e == "cjs"@ {
        Some(Grammar::JavaScript)
    } else {
        None
    }
}

/// The built-in extensions are lower case already.
proof fn lemma_builtin_lowered()
    ensures
        lowered(extensions_of(Grammar::Rust)) == seq!["rs"@],
        lowered(extensions_of(Grammar::Python)) == seq!["py"@],
        lowered(extensions_of(Grammar::TypeScript)) == seq!["ts"@],
        lowered(extensions_of(Grammar::Tsx)) == seq!["tsx"@],
        lowered(extensions_of(Grammar::JavaScript)) == seq!["js"@, "jsx"@, "mjs"@, "cjs"@],
        "rs"@ != "py"@ && "rs"@ != "ts"@ && "rs"@ != "tsx"@ && "rs"@ != "js"@ && "rs"@ != "jsx"@ && "rs"@ != "mjs"@ && "rs"@ != "cjs"@,
        "py"@ != "ts"@ && "py"@ != "tsx"@ && "py"@ != "js"@ && "py"@ != "jsx"@ && "py"@ != "mjs"@ && "py"@ != "cjs"@,
        "ts"@ != "tsx"@ && "ts"@ != "js"@ && "ts"@ != "jsx"@ && "ts"@ != "mjs"@ && "ts"@ != "cjs"@,
        "tsx"@ != "js"@ && "tsx"@ != "jsx"@ && "tsx"@ != "mjs"@ && "tsx"@ != "cjs"@,
{
    reveal_strlit("rs");
    reveal_strlit("py");
    reveal_strlit("ts");
    reveal_strlit("tsx");
    reveal_strlit("js");
    reveal_strlit("jsx");
    reveal_strlit("mjs");
    reveal_strlit("cjs");
    assert(lowered(extensions_of(Grammar::Rust)) =~= seq!["rs"@]) by {
        assert(ascii_lower("rs"@) =~= "rs"@);
    }
    assert(lowered(extensions_of(Grammar::Python)) =~= seq!["py"@]) by {
        assert(ascii_lower("py"@) =~= "py"@);
    }
    assert(lowered(extensions_of(Grammar::TypeScript)) =~= seq!["ts"@]) by {
        assert(ascii_lower("ts"@) =~= "ts"@);
    }
    assert(lowered(extensions_of(Grammar::Tsx)) =~= seq!["tsx"@]) by {
        assert(ascii_lower("tsx"@) =~= "tsx"@);
    }
    assert(lowered(extensions_of(Grammar::JavaScript)) =~= seq!["js"@, "jsx"@, "mjs"@, "cjs"@]) by {
        assert(ascii_lower("js"@) =~= "js"@);
        assert(ascii_lower("jsx"@) =~= "jsx"@);
        assert(ascii_lower("mjs"@) =~= "mjs"@);
        assert(ascii_lower("cjs"@) =~= "cjs"@);
    }
    assert("rs"@[0] != "py"@[0]);
    assert("rs"@[0] != "ts"@[0]);
    assert("rs"@[0] != "tsx"@[0]);
    assert("rs"@[0] != "js"@[0]);
    assert("rs"@[0] != "jsx"@[0]);
    assert("rs"@[0] != "mjs"@[0]);
    assert("rs"@[0] != "cjs"@[0]);
    assert("py"@[0] != "ts"@[0]);
    assert("py"@[0] != "tsx"@[0]);
    assert("py"@[0] != "js"@[0]);
    assert("py"@[0] != "jsx"@[0]);
    assert("py"@[0] != "mjs"@[0]);
    assert("py"@[0] != "cjs"@[0]);
    assert("ts"@[0] != "js"@[0]);
    assert("ts"@[0] != "jsx"@[0]);
    assert("ts"@[0] != "mjs"@[0]);
    assert("ts"@[0] != "cjs"@[0]);
    assert("tsx"@[0] != "js"@[0]);
    assert("tsx"@[0] != "jsx"@[0]);
    assert("tsx"@[0] != "mjs"@[0]);
    assert("tsx"@[0] != "cjs"@[0]);
}

impl LanguageRegistry {
    /// A registry holding the five built-in languages: Rust, Python,
    /// TypeScript, TSX and JavaScript.
    pub fn with_all_languages() -> (r: Self)
        ensures
            r.languages() == seq![Grammar::Rust, Grammar::Python, Grammar::TypeScript, Grammar::Tsx, Grammar::JavaScript],
            forall|e: Seq<char>| #[trigger] r.lookup(e) == builtin_language(e),
    {
        proof {
            lemma_builtin_lowered();
        }
        let mut registry = LanguageRegistry::new();
        let ghost r0 = registry;
        proof {
            assert(first_taken_from(r0, seq!["rs"@], 0) is None) by {
                assert(r0.lookup("rs"@) is None);
                assert(first_taken_from(r0, seq!["rs"@], 1) is None);
            }
        }
        let _ = registry.register(Grammar::Rust);
        let ghost r1 = registry;
        proof {
            assert(seq!["rs"@].contains("rs"@));
            assert(forall|e: Seq<char>| #[trigger] seq!["rs"@].contains(e) ==> e == "rs"@);
            assert(first_taken_from(registry, seq!["py"@], 0) is None) by {
                assert(!seq!["rs"@].contains("py"@));
                assert(registry.lookup("py"@) is None);
                assert(first_taken_from(registry, seq!["py"@], 1) is None);
            }
        }
        let _ = registry.register(Grammar::Python);
        let ghost r2 = registry;
        proof {
            assert(forall|e: Seq<char>| #[trigger] seq!["py"@].contains(e) ==> e == "py"@);
            assert(seq!["py"@].contains("py"@));
            assert(first_taken_from(registry, seq!["ts"@], 0) is None) by {
                assert(!seq!["rs"@].contains("ts"@));
                assert(!seq!["py"@].contains("ts"@));
                assert(registry.lookup("ts"@) is None);
                assert(first_taken_from(registry, seq!["ts"@], 1) is None);
            }
        }
        let _ = registry.register(Grammar::TypeScript);
        let ghost r3 = registry;
        proof {
            assert(forall|e: Seq<char>| #[trigger] seq!["ts"@].contains(e) ==> e == "ts"@);
            assert(seq!["ts"@].contains("ts"@));
            assert(first_taken_from(registry, seq!["tsx"@], 0) is None) by {
                assert(!seq!["rs"@].contains("tsx"@));
                assert(!seq!["py"@].contains("tsx"@));
                assert(!seq!["ts"@].contains("tsx"@));
                assert(registry.lookup("tsx"@) is None);
                assert(first_taken_from(registry, seq!["tsx"@], 1) is None);
            }
        }
        let _ = registry.register(Grammar::Tsx);
        let ghost r4 = registry;
        proof {
            let js = seq!["js"@, "jsx"@, "mjs"@, "cjs"@];
            assert(forall|e: Seq<char>| #[trigger] seq!["tsx"@].contains(e) ==> e == "tsx"@);
            assert(seq!["tsx"@].contains("tsx"@));
            assert(first_taken_from(registry, js, 3) is None) by {
                assert(!seq!["rs"@].contains("cjs"@));
                assert(!seq!["py"@].contains("cjs"@));
                assert(!seq!["ts"@].contains("cjs"@));
                assert(!seq!["tsx"@].contains("cjs"@));
                assert(registry.lookup("cjs"@) is None);
                assert(js[3] == "cjs"@);
                assert(first_taken_from(registry, js, 4) is None);
            }
            assert(first_taken_from(registry, js, 2) is None) by {
                assert(!seq!["rs"@].contains("mjs"@));
                assert(!seq!["py"@].contains("mjs"@));
                assert(!seq!["ts"@].contains("mjs"@));
                assert(!seq!["tsx"@].contains("mjs"@));
                assert(registry.lookup("mjs"@) is None);
                assert(js[2] == "mjs"@);
            }
            assert(first_taken_from(registry, js, 1) is None) by {
                assert(!seq!["rs"@].contains("jsx"@));
                assert(!seq!["py"@].contains("jsx"@));
                assert(!seq!["ts"@].contains("jsx"@));
                assert(!seq!["tsx"@].contains("jsx"@));
                assert(registry.lookup("jsx"@) is None);
                assert(js[1] == "jsx"@);
            }
            assert(first_taken_from(registry, js, 0) is None) by {
                assert(!seq!["rs"@].contains("js"@));
                assert(!seq!["py"@].contains("js"@));
                assert(!seq!["ts"@].contains("js"@));
                assert(!seq!["tsx"@].contains("js"@));
                assert(registry.lookup("js"@) is None);
                assert(js[0] == "js"@);
            }
        }
        let _ = registry.register(Grammar::JavaScript);
        let ghost r5 = registry;
        proof {
            let js = seq!["js"@, "jsx"@, "mjs"@, "cjs"@];
            assert(r1.languages() == r0.languages().push(Grammar::Rust));
            assert(r2.languages() == r1.languages().push(Grammar::Python));
            assert(r3.languages() == r2.languages().push(Grammar::TypeScript));
            assert(r4.languages() == r3.languages().push(Grammar::Tsx));
            assert(r5.languages() == r4.languages().push(Grammar::JavaScript));
            assert(r5.languages() =~= seq![Grammar::Rust, Grammar::Python, Grammar::TypeScript, Grammar::Tsx, Grammar::JavaScript]);
            assert forall|e: Seq<char>| #[trigger] registry.lookup(e) == builtin_language(e) by {
                assert(r0.lookup(e) is None);
                assert(r1.lookup(e) == (if seq!["rs"@].contains(e) { Some(Grammar::Rust) } else { r0.lookup(e) }));
                assert(r2.lookup(e) == (if seq!["py"@].contains(e) { Some(Grammar::Python) } else { r1.lookup(e) }));
                assert(r3.lookup(e) == (if seq!["ts"@].contains(e) { Some(Grammar::TypeScript) } else { r2.lookup(e) }));
                assert(r4.lookup(e) == (if seq!["tsx"@].contains(e) { Some(Grammar::Tsx) } else { r3.lookup(e) }));
                assert(r5.lookup(e) == (if js.contains(e) { Some(Grammar::JavaScript) } else { r4.lookup(e) }));
                assert(seq!["rs"@].contains(e) == (e == "rs"@)) by { if e == "rs"@ { assert(seq!["rs"@][0] == e); } }
                assert(seq!["py"@].contains(e) == (e == "py"@)) by { if e == "py"@ { assert(seq!["py"@][0] == e); } }
                assert(seq!["ts"@].contains(e) == (e == "ts"@)) by { if e == "ts"@ { assert(seq!["ts"@][0] == e); } }
                assert(seq!["tsx"@].contains(e) == (e == "tsx"@)) by { if e == "tsx"@ { assert(seq!["tsx"@][0] == e); } }
                if js.contains(e) {
                    let q = choose|q: int| 0 <= q < js.len() && js[q] == e;
                    assert(q == 0 || q == 1 || q == 2 || q == 3);
                } else {
                    assert(e != "js"@ && e != "jsx"@ && e != "mjs"@ && e != "cjs"@) by {
                        if e == "js"@ { assert(js[0] == e); }
                        if e == "jsx"@ { assert(js[1] == e); }
                        if e == "mjs"@ { assert(js[2] == e); }
                        if e == "cjs"@ { assert(js[3] == e); }
                    }
                }
            }
        }
        registry
    }

    /// Parses the file at `path` with the language its extension names: its
    /// symbols, references and imports. A file of no registered language
    /// gives nothing.
    pub fn parse_file(&self, path: &RelPath, source: &str) -> (pf: ParsedFile)
        ensures
            (match path_extension(path@) {
                Some(e) => self.lookup(ascii_lower(e)),
                None => None,
            }) matches Some(g) ==> (forall|j: int|
                0 <= j < pf.symbols@.len() ==> is_symbol_kind(g, (#[trigger] pf.symbols@[j]).kind@) && pf.symbols@[j].line
                    >= 1) && symbols_extracted(g, source@, symbols_as_raw(pf.symbols@)) && references_extracted(
                g,
                source@,
                references_as_raw(pf.references@),
            ) && scope_extracted(g, source@, imports_as_entries(pf.imports@)),
            (match path_extension(path@) {
                Some(e) => self.lookup(ascii_lower(e)),
                None => None,
            }) is None ==> pf.symbols@.len() == 0 && pf.references@.len() == 0 && pf.imports@.len() == 0,
            forall|j: int| 0 <= j < pf.references@.len() ==> (#[trigger] pf.references@[j]).line >= 1,
            forall|j: int|
                0 <= j < pf.imports@.len() ==> ((#[trigger] pf.imports@[j]).local_name is None <==> (pf.imports@[j].kind
                    == ImportKind::Wildcard || pf.imports@[j].kind == ImportKind::SideEffect)),
    {
        let g = match self.for_path(path.as_ref()) {
            Some(g) => g,
            None => {
                return ParsedFile { symbols: Vec::new(), references: Vec::new(), imports: Vec::new() };
            },
        };
        let raw_symbols = g.extract_symbols(source);
        let mut symbols: Vec<Symbol> = Vec::new();
        let mut k: usize = 0;
        while k < raw_symbols.len()
            invariant
                k <= raw_symbols@.len(),
                symbols@.len() == k,
                symbols_as_raw(symbols@) == symbols_view(raw_symbols@).take(k as int),
                forall|j: int| 0 <= j < raw_symbols@.len() ==> is_symbol_kind(g, (#[trigger] raw_symbols@[j]).kind@) && raw_symbols@[j].line >= 1,
                forall|j: int| 0 <= j < k ==> is_symbol_kind(g, (#[trigger] symbols@[j]).kind@) && symbols@[j].line >= 1,
            decreases raw_symbols@.len() - k,
        {
            let raw = &raw_symbols[k];
            let sym = Symbol {
                name: raw.name.clone(),
                kind: raw.kind.clone(),
                line: raw.line,
                signature: clone_string_opt(&raw.signature),
                is_public: raw.is_public,
                owner: clone_string_opt(&raw.owner),
            };
            symbols.push(sym);
            assert(symbols_as_raw(symbols@) =~= symbols_view(raw_symbols@).take(k + 1));
            k = k + 1;
        }
        assert(symbols_view(raw_symbols@).take(k as int) =~= symbols_view(raw_symbols@));
        let raw_refs = g.extract_references(source);
        let mut references: Vec<Reference> = Vec::new();
        let mut k: usize = 0;
        while k < raw_refs.len()
            invariant
                k <= raw_refs@.len(),
                references@.len() == k,
                references_as_raw(references@) == references_view(raw_refs@).take(k as int),
                forall|j: int| 0 <= j < raw_refs@.len() ==> (#[trigger] raw_refs@[j]).line >= 1,
                forall|j: int| 0 <= j < k ==> (#[trigger] references@[j]).line >= 1,
            decreases raw_refs@.len() - k,
        {
            let raw = &raw_refs[k];
            references.push(
                Reference { callee_name: raw.callee_name.clone(), line: raw.line, caller_name: clone_string_opt(&raw.caller_name) },
            );
            assert(references_as_raw(references@) =~= references_view(raw_refs@).take(k + 1));
            k = k + 1;
        }
        assert(references_view(raw_refs@).take(k as int) =~= references_view(raw_refs@));
        let mut imports: Vec<Import> = Vec::new();
        {
            let table = g.scope_of_source(source);
            let mut k: usize = 0;
            while k < table.entries.len()
                invariant
                    k <= table.entries@.len(),
                    imports@.len() == k,
                    imports_as_entries(imports@) == entries_view(table.entries@).take(k as int),
                    all_shaped(entries_view(table.entries@)),
                    forall|j: int|
                        0 <= j < k ==> ((#[trigger] imports@[j]).local_name is None <==> (imports@[j].kind
                            == ImportKind::Wildcard || imports@[j].kind == ImportKind::SideEffect)),
                decreases table.entries@.len() - k,
            {
                let e = &table.entries[k];
                assert(entry_shaped(entries_view(table.entries@)[k as int]));
                imports.push(Import { local_name: clone_string_opt(&e.local_name), source_path: e.source_path.clone(), kind: e.kind });
                assert(imports_as_entries(imports@) =~= entries_view(table.entries@).take(k + 1));
                k = k + 1;
            }
            assert(entries_view(table.entries@).take(k as int) =~= entries_view(table.entries@));
        }
        ParsedFile { symbols, references, imports }
    }
}

/// `pf` is what parsing `source`, the text of the file at `path`, with the
/// registry `reg` gives (see `LanguageRegistry::parse_file`).
pub open spec fn is_file_parse(reg: LanguageRegistry, path: RelPath, source: Seq<char>, pf: ParsedFile) -> bool {
    let lang = match path_extension(path@) {
        Some(e) => reg.lookup(ascii_lower(e)),
        None => None,
    };
    &&& lang matches Some(g) ==> (forall|j: int|
        0 <= j < pf.symbols@.len() ==> is_symbol_kind(g, (#[trigger] pf.symbols@[j]).kind@) && pf.symbols@[j].line >= 1) && (
    symbols_extracted(g, source, symbols_as_raw(pf.symbols@))) && references_extracted(g, source, references_as_raw(pf.references@))
        && scope_extracted(g, source, imports_as_entries(pf.imports@))
    &&& lang is None ==> pf.symbols@.len() == 0 && pf.references@.len() == 0 && pf.imports@.len() == 0
    &&& forall|j: int| 0 <= j < pf.references@.len() ==> (#[trigger] pf.references@[j]).line >= 1
    &&& forall|j: int|
        0 <= j < pf.imports@.len() ==> ((#[trigger] pf.imports@[j]).local_name is None <==> (pf.imports@[j].kind
            == ImportKind::Wildcard || pf.imports@[j].kind == ImportKind::SideEffect))
}

impl FileParser for LanguageRegistry {
    fn parse(&self, path: &RelPath, source: &str) -> (pf: ParsedFile)
        ensures
            is_file_parse(*self, *path, source@, pf),
    {
        self.parse_file(path, source)
    }

    fn extensions(&self) -> (r: Vec<String>)
        ensures
            r@.map_values(|s: String| s@) == self.extension_list(),
    {
        self.supported_extensions()
    }
}

} // verus!
