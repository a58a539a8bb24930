use vstd::prelude::*;

use crate::text::{chars_eq, chars_of, str_eq};

verus! {

/// How many relationships ended in each resolution outcome.
#[derive(Debug, Clone, Default, PartialEq, Eq)]
pub struct ResolutionStats {
    pub same_file: usize,
    pub scoped: usize,
    pub global_unique: usize,
    pub external: usize,
    pub unresolved: usize,
}

/// One row of the symbol table: its id, the file it is defined in, its name.
#[derive(Debug, Clone, PartialEq, Eq)]
pub struct SymbolRow {
    pub id: i64,
    pub file_id: i64,
    pub name: String,
}

/// One row of the import table.
#[derive(Debug, Clone, PartialEq, Eq)]
pub struct ImportEntry {
    pub file_id: i64,
    pub local_name: String,
    pub source_path: String,
    pub kind: String,
}

/// One recorded call: the relationship id, the calling symbol, the called name.
#[derive(Debug, Clone, PartialEq, Eq)]
pub struct RelationshipRow {
    pub id: i64,
    pub caller_symbol_id: i64,
    pub callee_name: String,
}

/// How a call was tied to a definition.
#[derive(Debug, Clone, Copy, PartialEq, Eq)]
pub enum Resolution {
    SameFile,
    Scoped,
    GlobalUnique,
    External,
    Unresolved,
}

impl Resolution {
    pub open spec fn spec_label(self) -> Seq<char> {
        match self {
            Resolution::SameFile => "same-file"@,
            Resolution::Scoped => "scoped"@,
            Resolution::GlobalUnique => "global-unique"@,
            Resolution::External => "external"@,
            Resolution::Unresolved => "unresolved"@,
        }
    }

    /// The label stored in the `resolution` column.
    pub fn as_str(&self) -> (s: &'static str)
        ensures
            s@ == self.spec_label(),
    {
        match self {
            Resolution::SameFile => "same-file",
            Resolution::Scoped => "scoped",
            Resolution::GlobalUnique => "global-unique",
            Resolution::External => "external",
            Resolution::Unresolved => "unresolved",
        }
    }
}

/// The outcome for one relationship: which row, how it resolved, and the file
/// of the chosen definition, if any.
#[derive(Debug, Clone, PartialEq, Eq)]
pub struct ResolvedRelationship {
    pub id: i64,
    pub resolution: Resolution,
    pub callee_file_id: Option<i64>,
}

/// The text after the last `::` of `path`, or all of `path` when it holds none.
pub open spec fn last_segment_spec(path: Seq<char>) -> Seq<char>
    decreases path.len(),
{
    if path.len() < 2 {
        path
    } else if path[path.len() - 2] == ':' && path[path.len() - 1] == ':' {
        Seq::empty()
    } else {
        last_segment_spec(path.drop_last()).push(path.last())
    }
}

/// The file of the last symbol row whose id is `id`.
pub open spec fn file_of_symbol(symbols: Seq<SymbolRow>, id: i64) -> Option<i64>
    decreases symbols.len(),
{
    if symbols.len() == 0 {
        None
    } else if symbols.last().id == id {
        Some(symbols.last().file_id)
    } else {
        file_of_symbol(symbols.drop_last(), id)
    }
}

/// How many symbol rows are named `name`.
pub open spec fn count_named(symbols: Seq<SymbolRow>, name: Seq<char>) -> nat
    decreases symbols.len(),
{
    if symbols.len() == 0 {
        0
    } else {
        count_named(symbols.drop_last(), name) + if symbols.last().name@ == name {
            1nat
        } else {
            0nat
        }
    }
}

/// The file of the first symbol row named `name`.
pub open spec fn first_named_file(symbols: Seq<SymbolRow>, name: Seq<char>) -> Option<i64>
    decreases symbols.len(),
{
    if symbols.len() == 0 {
        None
    } else {
        match first_named_file(symbols.drop_last(), name) {
            Some(f) => Some(f),
            None => if symbols.last().name@ == name {
                Some(symbols.last().file_id)
            } else {
                None
            },
        }
    }
}

/// Some symbol named `name` is defined in file `file_id`.
pub open spec fn defined_in_file(symbols: Seq<SymbolRow>, name: Seq<char>, file_id: i64) -> bool {
    exists|i: int| 0 <= i < symbols.len() && #[trigger] symbols[i].name@ == name && symbols[i].file_id == file_id
}

/// The file `file_id` has an import, other than a wildcard import, that brings
/// `name` into scope by its local name or by the last segment of its path.
pub open spec fn scoped_by_import(imports: Seq<ImportEntry>, file_id: i64, name: Seq<char>) -> bool {
    exists|i: int|
        0 <= i < imports.len() && #[trigger] imports[i].file_id == file_id && imports[i].kind@ != "wildcard"@ && (
        imports[i].local_name@ == name || last_segment_spec(imports[i].source_path@) == name)
}

/// The resolution of a call to `name` made from a symbol defined in `caller_file`
/// (or from a symbol that is not in the table, when `caller_file` is `None`).
pub open spec fn resolve_call(
    symbols: Seq<SymbolRow>,
    imports: Seq<ImportEntry>,
    caller_file: Option<i64>,
    name: Seq<char>,
) -> (Resolution, Option<i64>) {
    match caller_file {
        None => (Resolution::Unresolved, None),
        Some(file) => if defined_in_file(symbols, name, file) {
            (Resolution::SameFile, Some(file))
        } else if count_named(symbols, name) == 0 {
            (Resolution::External, None)
        } else if count_named(symbols, name) == 1 {
            if scoped_by_import(imports, file, name) {
                (Resolution::Scoped, first_named_file(symbols, name))
            } else {
                (Resolution::GlobalUnique, first_named_file(symbols, name))
            }
        } else {
            (Resolution::Unresolved, None)
        },
    }
}

/// The resolution of one relationship row against the symbol and import tables.
pub open spec fn resolve_row(symbols: Seq<SymbolRow>, imports: Seq<ImportEntry>, row: RelationshipRow) -> ResolvedRelationship {
    let (resolution, file) = resolve_call(symbols, imports, file_of_symbol(symbols, row.caller_symbol_id), row.callee_name@);
    ResolvedRelationship { id: row.id, resolution, callee_file_id: file }
}

/// How many of `outcomes` have resolution `r`.
pub open spec fn count_resolution(outcomes: Seq<ResolvedRelationship>, r: Resolution) -> nat
    decreases outcomes.len(),
{
    if outcomes.len() == 0 {
        0
    } else {
        count_resolution(outcomes.drop_last(), r) + if outcomes.last().resolution == r {
            1nat
        } else {
            0nat
        }
    }
}

/// The counters hold the number of outcomes of each kind.
pub open spec fn stats_count(stats: ResolutionStats, outcomes: Seq<ResolvedRelationship>) -> bool {
    &&& stats.same_file == count_resolution(outcomes, Resolution::SameFile)
    &&& stats.scoped == count_resolution(outcomes, Resolution::Scoped)
    &&& stats.global_unique == count_resolution(outcomes, Resolution::GlobalUnique)
    &&& stats.external == count_resolution(outcomes, Resolution::External)
    &&& stats.unresolved == count_resolution(outcomes, Resolution::Unresolved)
}

/// The text after the last `::` of `path`.
pub fn last_segment(path: &str) -> (seg: String)
    ensures
        seg@ == last_segment_spec(path@),
{
    let cs = chars_of(path);
    if cs.len() == 0 {
        return String::new();
    }
    let mut start: usize = 0;
    let mut i: usize = 0;
    proof {
        assert(cs@.take(1).drop_last() =~= Seq::<char>::empty());
        assert(cs@.take(1) =~= cs@.subrange(0, 1));
    }
    while i + 1 < cs.len()
        invariant
            cs@ == path@,
            i + 1 <= cs@.len(),
            start <= i + 1,
            last_segment_spec(cs@.take(i + 1)) == cs@.subrange(start as int, i + 1),
        decreases cs@.len() - i,
    {
        proof {
            let t = cs@.take((i + 2) as int);
            assert(t.drop_last() =~= cs@.take((i + 1) as int));
        }
        if cs[i] == ':' && cs[i + 1] == ':' {
            start = i + 2;
            proof {
                assert(cs@.subrange(start as int, (i + 2) as int) =~= Seq::<char>::empty());
            }
        } else {
            proof {
                assert(cs@.subrange(start as int, (i + 2) as int) =~= cs@.subrange(start as int, (i + 1) as int).push(cs@[i + 1]));
            }
        }
        i = i + 1;
    }
    proof {
        assert(cs@.take(cs@.len() as int) =~= cs@);
    }
    let mut seg: Vec<char> = Vec::new();
    let mut k = start;
    while k < cs.len()
        invariant
            start <= k <= cs@.len(),
            seg@ == cs@.subrange(start as int, k as int),
        decreases cs@.len() - k,
    {
        seg.push(cs[k]);
        assert(cs@.subrange(start as int, (k + 1) as int) =~= cs@.subrange(start as int, k as int).push(cs@[k as int]));
        k = k + 1;
    }
    crate::text::string_from_chars(seg.as_slice())
}

fn symbol_file(symbols: &Vec<SymbolRow>, id: i64) -> (file: Option<i64>)
    ensures
        file == file_of_symbol(symbols@, id),
{
    let mut found: Option<i64> = None;
    let mut i: usize = 0;
    while i < symbols.len()
        invariant
            i <= symbols@.len(),
            found == file_of_symbol(symbols@.take(i as int), id),
        decreases symbols@.len() - i,
    {
        proof {
            assert(symbols@.take((i + 1) as int).drop_last() =~= symbols@.take(i as int));
        }
        if symbols[i].id == id {
            found = Some(symbols[i].file_id);
        }
        i = i + 1;
    }
    assert(symbols@.take(symbols@.len() as int) =~= symbols@);
    found
}

/// Whether `name` is defined in `file`, how many rows carry `name`, and the
/// file of the first of them.
fn candidates_for(symbols: &Vec<SymbolRow>, name: &String, file: i64) -> (r: (bool, usize, Option<i64>))
    ensures
        r.0 == defined_in_file(symbols@, name@, file),
        r.1 == count_named(symbols@, name@),
        r.2 == first_named_file(symbols@, name@),
{
    let mut same = false;
    let mut count: usize = 0;
    let mut first: Option<i64> = None;
    let mut i: usize = 0;
    while i < symbols.len()
        invariant
            i <= symbols@.len(),
            count <= i,
            same == exists|j: int| 0 <= j < i && #[trigger] symbols@[j].name@ == name@ && symbols@[j].file_id == file,
            count == count_named(symbols@.take(i as int), name@),
            first == first_named_file(symbols@.take(i as int), name@),
        decreases symbols@.len() - i,
    {
        proof {
            assert(symbols@.take((i + 1) as int).drop_last() =~= symbols@.take(i as int));
        }
        if symbols[i].name == *name {
            if symbols[i].file_id == file {
                same = true;
            }
            count = count + 1;
            if first.is_none() {
                first = Some(symbols[i].file_id);
            }
        }
        i = i + 1;
    }
    assert(symbols@.take(symbols@.len() as int) =~= symbols@);
    (same, count, first)
}

fn import_scopes(imports: &Vec<ImportEntry>, file: i64, name: &String) -> (scoped: bool)
    ensures
        scoped == scoped_by_import(imports@, file, name@),
{
    let mut i: usize = 0;
    while i < imports.len()
        invariant
            i <= imports@.len(),
            forall|j: int|
                0 <= j < i ==> !(#[trigger] imports@[j].file_id == file && imports@[j].kind@ != "wildcard"@ && (
                imports@[j].local_name@ == name@ || last_segment_spec(imports@[j].source_path@) == name@)),
        decreases imports@.len() - i,
    {
        let entry = &imports[i];
        if entry.file_id == file && !str_eq(entry.kind.as_str(), "wildcard") {
            if entry.local_name == *name {
                return true;
            }
            let seg = last_segment(entry.source_path.as_str());
            if seg == *name {
                return true;
            }
        }
        i = i + 1;
    }
    false
}

/// Resolves one call made from the caller symbol to `name`.
pub fn resolve_one(
    symbols: &Vec<SymbolRow>,
    imports: &Vec<ImportEntry>,
    row: &RelationshipRow,
) -> (out: ResolvedRelationship)
    ensures
        out == resolve_row(symbols@, imports@, *row),
{
    let caller_file = symbol_file(symbols, row.caller_symbol_id);
    let (resolution, callee_file_id) = match caller_file {
        None => (Resolution::Unresolved, None),
        Some(file) => {
            let (same, count, first) = candidates_for(symbols, &row.callee_name, file);
            if same {
                (Resolution::SameFile, Some(file))
            } else if count == 0 {
                (Resolution::External, None)
            } else if count == 1 {
                if import_scopes(imports, file, &row.callee_name) {
                    (Resolution::Scoped, first)
                } else {
                    (Resolution::GlobalUnique, first)
                }
            } else {
                (Resolution::Unresolved, None)
            }
        },
    };
    ResolvedRelationship { id: row.id, resolution, callee_file_id }
}

/// Resolves every relationship row and counts the outcomes.
pub fn resolve_relationships(
    symbols: &Vec<SymbolRow>,
    imports: &Vec<ImportEntry>,
    relationships: &Vec<RelationshipRow>,
) -> (res: (Vec<ResolvedRelationship>, ResolutionStats))
    ensures
        res.0@.len() == relationships@.len(),
        forall|i: int|
            0 <= i < relationships@.len() ==> #[trigger] res.0@[i] == resolve_row(
                symbols@,
                imports@,
                relationships@[i],
            ),
        stats_count(res.1, res.0@),
        res.1.same_file + res.1.scoped + res.1.global_unique + res.1.external + res.1.unresolved
            == relationships@.len(),
{
    let mut outcomes: Vec<ResolvedRelationship> = Vec::new();
    let mut stats = ResolutionStats { same_file: 0, scoped: 0, global_unique: 0, external: 0, unresolved: 0 };
    let mut i: usize = 0;
    while i < relationships.len()
        invariant
            i <= relationships@.len(),
            outcomes@.len() == i,
            forall|j: int| 0 <= j < i ==> #[trigger] outcomes@[j] == resolve_row(symbols@, imports@, relationships@[j]),
            stats_count(stats, outcomes@),
            stats.same_file + stats.scoped + stats.global_unique + stats.external + stats.unresolved == i,
        decreases relationships@.len() - i,
    {
        let out = resolve_one(symbols, imports, &relationships[i]);
        let ghost before = outcomes@;
        match out.resolution {
            Resolution::SameFile => stats.same_file = stats.same_file + 1,
            Resolution::Scoped => stats.scoped = stats.scoped + 1,
            Resolution::GlobalUnique => stats.global_unique = stats.global_unique + 1,
            Resolution::External => stats.external = stats.external + 1,
            Resolution::Unresolved => stats.unresolved = stats.unresolved + 1,
        }
        outcomes.push(out);
        proof {
            assert(outcomes@.drop_last() =~= before);
        }
        i = i + 1;
    }
    (outcomes, stats)
}

/// Resolving runs on the rows alone: two resolutions of the same symbols,
/// imports and relationship rows give the same outcomes and the same counts,
/// so resolving again after nothing changed changes nothing.
pub proof fn lemma_resolution_repeatable(
    symbols: Seq<SymbolRow>,
    imports: Seq<ImportEntry>,
    relationships: Seq<RelationshipRow>,
    first: (Seq<ResolvedRelationship>, ResolutionStats),
    second: (Seq<ResolvedRelationship>, ResolutionStats),
)
    requires
        first.0.len() == relationships.len(),
        second.0.len() == relationships.len(),
        forall|i: int| 0 <= i < relationships.len() ==> #[trigger] first.0[i] == resolve_row(symbols, imports, relationships[i]),
        forall|i: int| 0 <= i < relationships.len() ==> #[trigger] second.0[i] == resolve_row(symbols, imports, relationships[i]),
        stats_count(first.1, first.0),
        stats_count(second.1, second.0),
    ensures
        first.0 == second.0,
        first.1 == second.1,
{
    assert forall|i: int| 0 <= i < relationships.len() implies first.0[i] == second.0[i] by {
        assert(first.0[i] == resolve_row(symbols, imports, relationships[i]));
        assert(second.0[i] == resolve_row(symbols, imports, relationships[i]));
    }
    assert(first.0 =~= second.0);
}

/// Every relationship lands in exactly one of the five counters.
pub proof fn lemma_outcomes_partition(outcomes: Seq<ResolvedRelationship>)
    ensures
        count_resolution(outcomes, Resolution::SameFile) + count_resolution(outcomes, Resolution::Scoped)
            + count_resolution(outcomes, Resolution::GlobalUnique) + count_resolution(outcomes, Resolution::External)
            + count_resolution(outcomes, Resolution::Unresolved) == outcomes.len(),
    decreases outcomes.len(),
{
    if outcomes.len() > 0 {
        lemma_outcomes_partition(outcomes.drop_last());
    }
}

/// Where some row carries `name`, the first such row's file is found and is
/// a file defining `name`.
proof fn lemma_first_named_file_defines(symbols: Seq<SymbolRow>, name: Seq<char>)
    requires
        count_named(symbols, name) > 0,
    ensures
        first_named_file(symbols, name) matches Some(f) && defined_in_file(symbols, name, f),
    decreases symbols.len(),
{
    let init = symbols.drop_last();
    if count_named(init, name) > 0 {
        lemma_first_named_file_defines(init, name);
        let f = first_named_file(init, name)->0;
        let i = choose|i: int| 0 <= i < init.len() && #[trigger] init[i].name@ == name && init[i].file_id == f;
        assert(symbols[i] == init[i]);
    } else {
        lemma_first_named_file_none(init, name);
        assert(symbols[symbols.len() - 1] == symbols.last());
    }
}

proof fn lemma_first_named_file_none(symbols: Seq<SymbolRow>, name: Seq<char>)
    requires
        count_named(symbols, name) == 0,
    ensures
        first_named_file(symbols, name) is None,
    decreases symbols.len(),
{
    if symbols.len() > 0 {
        lemma_first_named_file_none(symbols.drop_last(), name);
    }
}

/// A wildcard import never makes a call scoped: where every import of the
/// caller's file that could bring the called name into scope is a wildcard
/// import, the call is not `Scoped`.
pub proof fn lemma_wildcard_never_scopes(symbols: Seq<SymbolRow>, imports: Seq<ImportEntry>, row: RelationshipRow)
    requires
        forall|i: int|
            0 <= i < imports.len() && (file_of_symbol(symbols, row.caller_symbol_id) == Some(#[trigger] imports[i].file_id))
                && (imports[i].local_name@ == row.callee_name@ || last_segment_spec(imports[i].source_path@)
                == row.callee_name@) ==> imports[i].kind@ == "wildcard"@,
    ensures
        resolve_row(symbols, imports, row).resolution != Resolution::Scoped,
{
}

/// A name defined in some file is counted.
proof fn lemma_defined_counted(symbols: Seq<SymbolRow>, name: Seq<char>, f: i64)
    requires
        defined_in_file(symbols, name, f),
    ensures
        count_named(symbols, name) > 0,
    decreases symbols.len(),
{
    let i = choose|i: int| 0 <= i < symbols.len() && #[trigger] symbols[i].name@ == name && symbols[i].file_id == f;
    if i < symbols.len() - 1 {
        let init = symbols.drop_last();
        assert(init[i] == symbols[i]);
        lemma_defined_counted(init, name, f);
    }
}

proof fn lemma_unique_named(symbols: Seq<SymbolRow>, name: Seq<char>, j: int)
    requires
        0 <= j < symbols.len(),
        symbols[j].name@ == name,
        forall|i: int| 0 <= i < symbols.len() && i != j ==> (#[trigger] symbols[i]).name@ != name,
    ensures
        count_named(symbols, name) == 1,
        first_named_file(symbols, name) == Some(symbols[j].file_id),
    decreases symbols.len(),
{
    let init = symbols.drop_last();
    if j < symbols.len() - 1 {
        assert forall|i: int| 0 <= i < init.len() && i != j implies (#[trigger] init[i]).name@ != name by {
            assert(init[i] == symbols[i]);
        }
        assert(init[j] == symbols[j]);
        lemma_unique_named(init, name, j);
        assert(symbols.last() == symbols[symbols.len() - 1]);
    } else {
        lemma_none_named(init, name, symbols);
    }
}

proof fn lemma_none_named(init: Seq<SymbolRow>, name: Seq<char>, symbols: Seq<SymbolRow>)
    requires
        init == symbols.drop_last(),
        symbols.len() > 0,
        forall|i: int| 0 <= i < symbols.len() && i != symbols.len() - 1 ==> (#[trigger] symbols[i]).name@ != name,
    ensures
        count_named(init, name) == 0,
        first_named_file(init, name) is None,
    decreases init.len(),
{
    if init.len() > 0 {
        let shorter = init.drop_last();
        assert forall|i: int| 0 <= i < init.len() && i != init.len() - 1 implies (#[trigger] init[i]).name@ != name by {
            assert(init[i] == symbols[i]);
        }
        lemma_none_named(shorter, name, init);
        assert(init.last() == symbols[init.len() - 1]);
    }
}

/// The last segment of `prefix::name`, for a name holding no `:`, is the name.
pub proof fn lemma_last_segment_of_path(prefix: Seq<char>, name: Seq<char>)
    requires
        forall|i: int| 0 <= i < name.len() ==> name[i] != ':',
    ensures
        last_segment_spec(prefix + "::"@ + name) == name,
    decreases name.len(),
{
    reveal_strlit("::");
    let p = prefix + "::"@ + name;
    if name.len() == 0 {
        assert(p =~= prefix + "::"@);
        assert(p[p.len() - 2] == ':' && p[p.len() - 1] == ':');
    } else {
        lemma_last_segment_of_path(prefix, name.drop_last());
        assert(p.drop_last() =~= prefix + "::"@ + name.drop_last());
        assert(p.last() == name.last());
        assert(name.drop_last().push(name.last()) =~= name);
    }
}

/// A call to a name defined exactly once, in another file than its caller's,
/// is scoped to that definition exactly when the caller's file has an import,
/// other than a wildcard, that names it: by its local name, or as the last
/// segment of the imported path. Otherwise it is a global unique match.
pub proof fn lemma_imported_name_scopes(symbols: Seq<SymbolRow>, imports: Seq<ImportEntry>, row: RelationshipRow, j: int)
    requires
        file_of_symbol(symbols, row.caller_symbol_id) is Some,
        0 <= j < symbols.len(),
        symbols[j].name@ == row.callee_name@,
        forall|i: int| 0 <= i < symbols.len() && i != j ==> (#[trigger] symbols[i]).name@ != row.callee_name@,
        file_of_symbol(symbols, row.caller_symbol_id) != Some(symbols[j].file_id),
    ensures
        ({
            let f = file_of_symbol(symbols, row.caller_symbol_id)->0;
            let named = exists|k: int|
                0 <= k < imports.len() && #[trigger] imports[k].file_id == f && imports[k].kind@ != "wildcard"@ && (
                imports[k].local_name@ == row.callee_name@ || last_segment_spec(imports[k].source_path@)
                    == row.callee_name@);
            resolve_row(symbols, imports, row) == ResolvedRelationship {
                id: row.id,
                resolution: if named {
                    Resolution::Scoped
                } else {
                    Resolution::GlobalUnique
                },
                callee_file_id: Some(symbols[j].file_id),
            }
        }),
        forall|k: int|
            0 <= k < imports.len() && Some(#[trigger] imports[k].file_id) == file_of_symbol(symbols, row.caller_symbol_id)
                && imports[k].kind@ != "wildcard"@ && imports[k].local_name@ == row.callee_name@ ==> resolve_row(
                symbols,
                imports,
                row,
            ).resolution == Resolution::Scoped,
{
    let f = file_of_symbol(symbols, row.caller_symbol_id)->0;
    lemma_unique_named(symbols, row.callee_name@, j);
    if defined_in_file(symbols, row.callee_name@, f) {
        let i = choose|i: int| 0 <= i < symbols.len() && #[trigger] symbols[i].name@ == row.callee_name@ && symbols[i].file_id == f;
        assert(i == j);
    }
}

proof fn lemma_count_zero(symbols: Seq<SymbolRow>, name: Seq<char>)
    requires
        forall|i: int| 0 <= i < symbols.len() ==> (#[trigger] symbols[i]).name@ != name,
    ensures
        count_named(symbols, name) == 0,
    decreases symbols.len(),
{
    if symbols.len() > 0 {
        let init = symbols.drop_last();
        assert forall|i: int| 0 <= i < init.len() implies (#[trigger] init[i]).name@ != name by {
            assert(init[i] == symbols[i]);
        }
        lemma_count_zero(init, name);
        assert(symbols.last() == symbols[symbols.len() - 1]);
    }
}

proof fn lemma_count_two(symbols: Seq<SymbolRow>, name: Seq<char>, a: int, b: int)
    requires
        0 <= a < b < symbols.len(),
        symbols[a].name@ == name,
        symbols[b].name@ == name,
    ensures
        count_named(symbols, name) >= 2,
    decreases symbols.len(),
{
    let init = symbols.drop_last();
    if b < symbols.len() - 1 {
        assert(init[a] == symbols[a] && init[b] == symbols[b]);
        lemma_count_two(init, name, a, b);
    } else {
        assert(init[a] == symbols[a]);
        lemma_defined_counted(init, name, symbols[a].file_id);
        assert(symbols.last() == symbols[b]);
    }
}

/// How a call is resolved, read off the tables: from a caller not in the
/// symbol table it is unresolved; a name defined in the caller's own file is
/// a same-file call to that file; a name defined nowhere is external; a name
/// defined twice or more, none of them in the caller's file, is unresolved.
pub proof fn lemma_resolution_cases(symbols: Seq<SymbolRow>, imports: Seq<ImportEntry>, row: RelationshipRow)
    ensures
        (forall|i: int| 0 <= i < symbols.len() ==> (#[trigger] symbols[i]).id != row.caller_symbol_id) ==> resolve_row(
            symbols,
            imports,
            row,
        ) == (ResolvedRelationship { id: row.id, resolution: Resolution::Unresolved, callee_file_id: None }),
        file_of_symbol(symbols, row.caller_symbol_id) matches Some(f) ==> {
            &&& (exists|i: int| 0 <= i < symbols.len() && #[trigger] symbols[i].name@ == row.callee_name@ && symbols[i].file_id == f)
                ==> resolve_row(symbols, imports, row) == (ResolvedRelationship {
                id: row.id,
                resolution: Resolution::SameFile,
                callee_file_id: Some(f),
            })
            &&& (forall|i: int| 0 <= i < symbols.len() ==> (#[trigger] symbols[i]).name@ != row.callee_name@) ==> resolve_row(
                symbols,
                imports,
                row,
            ) == (ResolvedRelationship { id: row.id, resolution: Resolution::External, callee_file_id: None })
            &&& (exists|a: int, b: int|
                0 <= a < b < symbols.len() && #[trigger] symbols[a].name@ == row.callee_name@ && #[trigger] symbols[b].name@
                    == row.callee_name@) && !(exists|i: int|
                0 <= i < symbols.len() && #[trigger] symbols[i].name@ == row.callee_name@ && symbols[i].file_id == f)
                ==> resolve_row(symbols, imports, row) == (ResolvedRelationship {
                id: row.id,
                resolution: Resolution::Unresolved,
                callee_file_id: None,
            })
        },
{
    lemma_file_of_unknown(symbols, row.caller_symbol_id);
    if forall|i: int| 0 <= i < symbols.len() ==> (#[trigger] symbols[i]).name@ != row.callee_name@ {
        lemma_count_zero(symbols, row.callee_name@);
    }
    if exists|a: int, b: int|
        0 <= a < b < symbols.len() && #[trigger] symbols[a].name@ == row.callee_name@ && #[trigger] symbols[b].name@
            == row.callee_name@ {
        let (a, b) = choose|a: int, b: int|
            0 <= a < b < symbols.len() && #[trigger] symbols[a].name@ == row.callee_name@ && #[trigger] symbols[b].name@
                == row.callee_name@;
        lemma_count_two(symbols, row.callee_name@, a, b);
    }
}

proof fn lemma_file_of_unknown(symbols: Seq<SymbolRow>, id: i64)
    ensures
        (forall|i: int| 0 <= i < symbols.len() ==> (#[trigger] symbols[i]).id != id) ==> file_of_symbol(symbols, id) is None,
    decreases symbols.len(),
{
    if symbols.len() > 0 {
        let init = symbols.drop_last();
        lemma_file_of_unknown(init, id);
        if forall|i: int| 0 <= i < symbols.len() ==> (#[trigger] symbols[i]).id != id {
            assert forall|i: int| 0 <= i < init.len() implies (#[trigger] init[i]).id != id by {
                assert(init[i] == symbols[i]);
            }
            assert(symbols.last() == symbols[symbols.len() - 1]);
        }
    }
}

/// A call from a file importing `prefix::name` (any import but a wildcard),
/// to a name defined exactly once, in another file, is scoped.
pub proof fn lemma_imported_path_scopes(
    symbols: Seq<SymbolRow>,
    imports: Seq<ImportEntry>,
    row: RelationshipRow,
    j: int,
    k: int,
    prefix: Seq<char>,
)
    requires
        file_of_symbol(symbols, row.caller_symbol_id) is Some,
        0 <= j < symbols.len(),
        symbols[j].name@ == row.callee_name@,
        forall|i: int| 0 <= i < symbols.len() && i != j ==> (#[trigger] symbols[i]).name@ != row.callee_name@,
        file_of_symbol(symbols, row.caller_symbol_id) != Some(symbols[j].file_id),
        forall|i: int| 0 <= i < row.callee_name@.len() ==> row.callee_name@[i] != ':',
        0 <= k < imports.len(),
        Some(imports[k].file_id) == file_of_symbol(symbols, row.caller_symbol_id),
        imports[k].kind@ != "wildcard"@,
        imports[k].source_path@ == prefix + "::"@ + row.callee_name@,
    ensures
        resolve_row(symbols, imports, row).resolution == Resolution::Scoped,
        resolve_row(symbols, imports, row).callee_file_id == Some(symbols[j].file_id),
{
    lemma_last_segment_of_path(prefix, row.callee_name@);
    lemma_imported_name_scopes(symbols, imports, row, j);
    assert(imports[k].file_id == file_of_symbol(symbols, row.caller_symbol_id)->0);
}

/// A relationship is tied to a file exactly when it is resolved (neither
/// external nor unresolved), and that file defines the called name (for a
/// same-file call, it is the caller's own file); a call is external exactly
/// when its caller is known and no symbol anywhere has the called name.
pub proof fn lemma_resolved_call_has_definition(symbols: Seq<SymbolRow>, imports: Seq<ImportEntry>, row: RelationshipRow)
    ensures
        ({
            let out = resolve_row(symbols, imports, row);
            &&& (out.resolution != Resolution::Unresolved && out.resolution != Resolution::External)
                <==> out.callee_file_id is Some
            &&& out.resolution == Resolution::External <==> (file_of_symbol(symbols, row.caller_symbol_id) is Some
                && count_named(symbols, row.callee_name@) == 0)
            &&& out.callee_file_id matches Some(f) ==> defined_in_file(symbols, row.callee_name@, f)
            &&& out.resolution == Resolution::SameFile ==> out.callee_file_id == file_of_symbol(symbols, row.caller_symbol_id)
        }),
{
    let caller = file_of_symbol(symbols, row.caller_symbol_id);
    if let Some(file) = caller {
        if defined_in_file(symbols, row.callee_name@, file) {
            lemma_defined_counted(symbols, row.callee_name@, file);
        }
        if !defined_in_file(symbols, row.callee_name@, file) && count_named(symbols, row.callee_name@) == 1 {
            lemma_first_named_file_defines(symbols, row.callee_name@);
        }
    }
}

} // verus!
