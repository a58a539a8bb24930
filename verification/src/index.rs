use vstd::prelude::*;

use crate::resolve::ResolutionStats;
use crate::symbol::Reference;
use crate::text::str_eq;
use crate::walk::SkippedFile;

verus! {

/// Counters reported by one indexing run.
#[derive(Debug, Clone, Default, PartialEq, Eq)]
pub struct IndexStats {
    pub files_indexed: usize,
    pub files_skipped_unchanged: usize,
    pub symbols_stored: usize,
    pub imports_stored: usize,
    pub relationships_stored: usize,
    pub references_skipped_no_caller: usize,
    pub resolution: ResolutionStats,
    pub skipped: Vec<SkippedFile>,
}

/// What became of one walked file in an indexing run.
pub enum FileOutcome {
    /// It was not indexed and is reported as skipped (unreadable, not UTF-8).
    Skipped(SkippedFile),
    /// Its content hash equals the stored one, so it was left as it is.
    Unchanged,
    /// It was indexed: the symbols, imports and relationships stored for it,
    /// and its references that no definition encloses.
    Indexed { symbols: usize, imports: usize, relationships: usize, without_caller: usize },
}

/// The counters of an indexing run as numbers.
pub struct IndexCounters {
    pub indexed: nat,
    pub unchanged: nat,
    pub symbols: nat,
    pub imports: nat,
    pub relationships: nat,
    pub without_caller: nat,
}

/// The counters of `s`.
pub open spec fn counters(s: IndexStats) -> IndexCounters {
    IndexCounters {
        indexed: s.files_indexed as nat,
        unchanged: s.files_skipped_unchanged as nat,
        symbols: s.symbols_stored as nat,
        imports: s.imports_stored as nat,
        relationships: s.relationships_stored as nat,
        without_caller: s.references_skipped_no_caller as nat,
    }
}

/// The counters after one more file with outcome `o`.
pub open spec fn after_outcome(c: IndexCounters, o: FileOutcome) -> IndexCounters {
    match o {
        FileOutcome::Skipped(_) => c,
        FileOutcome::Unchanged => IndexCounters { unchanged: c.unchanged + 1, ..c },
        FileOutcome::Indexed { symbols, imports, relationships, without_caller } => IndexCounters {
            indexed: c.indexed + 1,
            symbols: c.symbols + symbols as nat,
            imports: c.imports + imports as nat,
            relationships: c.relationships + relationships as nat,
            without_caller: c.without_caller + without_caller as nat,
            ..c
        },
    }
}

/// The counters after the files with outcomes `os`, in order.
pub open spec fn after_outcomes(c: IndexCounters, os: Seq<FileOutcome>) -> IndexCounters
    decreases os.len(),
{
    if os.len() == 0 {
        c
    } else {
        after_outcome(after_outcomes(c, os.drop_last()), os.last())
    }
}

/// No counter of `c` exceeds what a `usize` holds.
pub open spec fn counters_fit(c: IndexCounters) -> bool {
    &&& c.indexed <= usize::MAX
    &&& c.unchanged <= usize::MAX
    &&& c.symbols <= usize::MAX
    &&& c.imports <= usize::MAX
    &&& c.relationships <= usize::MAX
    &&& c.without_caller <= usize::MAX
}

/// The counters of a run that has counted nothing yet.
pub open spec fn no_counts() -> IndexCounters {
    IndexCounters { indexed: 0, unchanged: 0, symbols: 0, imports: 0, relationships: 0, without_caller: 0 }
}

/// The number of files among `os` that were indexed.
pub open spec fn indexed_files(os: Seq<FileOutcome>) -> nat
    decreases os.len(),
{
    if os.len() == 0 {
        0
    } else {
        indexed_files(os.drop_last()) + if os.last() is Indexed {
            1nat
        } else {
            0nat
        }
    }
}

/// The number of symbols stored for the files among `os`.
pub open spec fn stored_symbols(os: Seq<FileOutcome>) -> nat
    decreases os.len(),
{
    if os.len() == 0 {
        0
    } else {
        stored_symbols(os.drop_last()) + match os.last() {
            FileOutcome::Indexed { symbols, .. } => symbols as nat,
            _ => 0nat,
        }
    }
}

/// The number of relationships stored for the files among `os`.
pub open spec fn stored_relationships(os: Seq<FileOutcome>) -> nat
    decreases os.len(),
{
    if os.len() == 0 {
        0
    } else {
        stored_relationships(os.drop_last()) + match os.last() {
            FileOutcome::Indexed { relationships, .. } => relationships as nat,
            _ => 0nat,
        }
    }
}

/// A run over files that are all unchanged indexes none of them and counts
/// each as skipped: indexing twice with nothing changed in between stores
/// nothing the second time.
pub proof fn lemma_unchanged_run(c: IndexCounters, os: Seq<FileOutcome>)
    requires
        forall|i: int| 0 <= i < os.len() ==> #[trigger] os[i] is Unchanged,
    ensures
        after_outcomes(c, os) == (IndexCounters { unchanged: c.unchanged + os.len(), ..c }),
    decreases os.len(),
{
    if os.len() > 0 {
        let init = os.drop_last();
        assert forall|i: int| 0 <= i < init.len() implies #[trigger] init[i] is Unchanged by {
            assert(init[i] == os[i]);
        }
        lemma_unchanged_run(c, init);
        assert(os[os.len() - 1] is Unchanged);
    }
}

/// A run that starts with no counts ends with as many indexed files, stored
/// symbols and stored relationships as its outcomes report.
pub proof fn lemma_fresh_run_counts(os: Seq<FileOutcome>)
    ensures
        after_outcomes(no_counts(), os).indexed == indexed_files(os),
        after_outcomes(no_counts(), os).symbols == stored_symbols(os),
        after_outcomes(no_counts(), os).relationships == stored_relationships(os),
    decreases os.len(),
{
    if os.len() > 0 {
        lemma_fresh_run_counts(os.drop_last());
    }
}

impl IndexStats {
    /// Counters at zero, with the entries the walk skipped.
    pub fn start(skipped: Vec<SkippedFile>) -> (s: IndexStats)
        ensures
            counters(s) == no_counts(),
            s.skipped@ == skipped@,
            s.resolution == (ResolutionStats { same_file: 0, scoped: 0, global_unique: 0, external: 0, unresolved: 0 }),
    {
        IndexStats {
            files_indexed: 0,
            files_skipped_unchanged: 0,
            symbols_stored: 0,
            imports_stored: 0,
            relationships_stored: 0,
            references_skipped_no_caller: 0,
            resolution: ResolutionStats { same_file: 0, scoped: 0, global_unique: 0, external: 0, unresolved: 0 },
            skipped,
        }
    }

    /// Whether the counters can take one more file with outcome `o`.
    pub fn can_count(&self, o: &FileOutcome) -> (b: bool)
        ensures
            b == counters_fit(after_outcome(counters(*self), *o)),
    {
        match o {
            FileOutcome::Skipped(_) => true,
            FileOutcome::Unchanged => self.files_skipped_unchanged < usize::MAX,
            FileOutcome::Indexed { symbols, imports, relationships, without_caller } => self.files_indexed < usize::MAX
                && *symbols <= usize::MAX - self.symbols_stored && *imports <= usize::MAX - self.imports_stored
                && *relationships <= usize::MAX - self.relationships_stored && *without_caller <= usize::MAX
                - self.references_skipped_no_caller,
        }
    }

    /// Counts one more file: its outcome, and for a skipped file its entry
    /// among the skipped.
    pub fn count(&mut self, o: FileOutcome)
        requires
            counters_fit(after_outcome(counters(*old(self)), o)),
        ensures
            counters(*final(self)) == after_outcome(counters(*old(self)), o),
            final(self).skipped@ == (match o {
                FileOutcome::Skipped(f) => old(self).skipped@.push(f),
                _ => old(self).skipped@,
            }),
            final(self).resolution == old(self).resolution,
    {
        match o {
            FileOutcome::Skipped(f) => self.skipped.push(f),
            FileOutcome::Unchanged => self.files_skipped_unchanged = self.files_skipped_unchanged + 1,
            FileOutcome::Indexed { symbols, imports, relationships, without_caller } => {
                self.files_indexed = self.files_indexed + 1;
                self.symbols_stored = self.symbols_stored + symbols;
                self.imports_stored = self.imports_stored + imports;
                self.relationships_stored = self.relationships_stored + relationships;
                self.references_skipped_no_caller = self.references_skipped_no_caller + without_caller;
            },
        }
    }
}

/// A symbol of the file being indexed, with the row id it was stored under.
#[derive(Debug, Clone, PartialEq, Eq)]
pub struct StoredSymbol {
    pub id: i64,
    pub name: String,
    pub line: u32,
}

/// `k` is the definition a reference on `ref_line` belongs to among the symbols
/// named `caller`: the latest-starting one at or before the reference (the
/// last of equals), or, when every candidate starts after it, the
/// earliest-starting one (the first of equals).
pub open spec fn is_caller_choice(symbols: Seq<StoredSymbol>, caller: Seq<char>, ref_line: u32, k: int) -> bool {
    let named = |j: int| 0 <= j < symbols.len() && symbols[j].name@ == caller;
    &&& named(k)
    &&& if exists|j: int| #[trigger] named(j) && symbols[j].line <= ref_line {
        &&& symbols[k].line <= ref_line
        &&& forall|j: int|
            #[trigger] named(j) && symbols[j].line <= ref_line ==> symbols[j].line < symbols[k].line || (
            symbols[j].line == symbols[k].line && j <= k)
    } else {
        forall|j: int|
            #[trigger] named(j) ==> symbols[k].line < symbols[j].line || (symbols[j].line
                == symbols[k].line && k <= j)
    }
}

/// The symbol a reference with caller name `caller` is attributed to.
pub open spec fn caller_choice(symbols: Seq<StoredSymbol>, caller: Seq<char>, ref_line: u32) -> Option<i64> {
    if exists|k: int| is_caller_choice(symbols, caller, ref_line, k) {
        Some(symbols[choose|k: int| is_caller_choice(symbols, caller, ref_line, k)].id)
    } else {
        None
    }
}

/// The index of the definition a reference from `caller` on `ref_line` is
/// attributed to, or `None` when no symbol of this file carries that name.
pub fn select_caller(symbols: &Vec<StoredSymbol>, caller: &String, ref_line: u32) -> (k: Option<usize>)
    ensures
        k is None <==> !(exists|j: int| 0 <= j < symbols@.len() && symbols@[j].name@ == caller@),
        k matches Some(k) ==> is_caller_choice(symbols@, caller@, ref_line, k as int),
{
    let mut before: Option<usize> = None;
    let mut earliest: Option<usize> = None;
    let mut i: usize = 0;
    while i < symbols.len()
        invariant
            i <= symbols@.len(),
            earliest is None <==> !(exists|j: int| 0 <= j < i && symbols@[j].name@ == caller@),
            earliest matches Some(e) ==> {
                &&& e < i
                &&& symbols@[e as int].name@ == caller@
                &&& forall|j: int|
                    0 <= j < i && #[trigger] symbols@[j].name@ == caller@ ==> symbols@[e as int].line
                        < symbols@[j].line || (symbols@[j].line == symbols@[e as int].line && e <= j)
            },
            before is None <==> !(exists|j: int|
                0 <= j < i && symbols@[j].name@ == caller@ && symbols@[j].line <= ref_line),
            before matches Some(b) ==> {
                &&& b < i
                &&& symbols@[b as int].name@ == caller@
                &&& symbols@[b as int].line <= ref_line
                &&& forall|j: int|
                    0 <= j < i && #[trigger] symbols@[j].name@ == caller@ && symbols@[j].line
                        <= ref_line ==> symbols@[j].line < symbols@[b as int].line || (
                    symbols@[j].line == symbols@[b as int].line && j <= b)
            },
        decreases symbols@.len() - i,
    {
        if symbols[i].name == *caller {
            let line = symbols[i].line;
            match earliest {
                None => {
                    earliest = Some(i);
                },
                Some(e) => {
                    if line < symbols[e].line {
                        earliest = Some(i);
                    }
                },
            }
            if line <= ref_line {
                match before {
                    None => {
                        before = Some(i);
                    },
                    Some(b) => {
                        if line >= symbols[b].line {
                            before = Some(i);
                        }
                    },
                }
            }
        }
        i = i + 1;
    }
    match before {
        Some(b) => Some(b),
        None => earliest,
    }
}

/// The id of the definition a reference is attributed to, when the reference
/// names a caller defined in this file.
pub fn caller_symbol_id(symbols: &Vec<StoredSymbol>, reference: &Reference) -> (id: Option<i64>)
    ensures
        id == match reference.caller_name {
            Some(caller) => caller_choice(symbols@, caller@, reference.line),
            None => None,
        },
{
    match &reference.caller_name {
        None => None,
        Some(caller) => {
            match select_caller(symbols, caller, reference.line) {
                Some(k) => {
                    proof {
                        lemma_caller_choice_unique(symbols@, caller@, reference.line, k as int);
                    }
                    Some(symbols[k].id)
                },
                None => {
                    proof {
                        if exists|k: int| is_caller_choice(symbols@, caller@, reference.line, k) {
                            let k = choose|k: int| is_caller_choice(symbols@, caller@, reference.line, k);
                            assert(0 <= k < symbols@.len() && symbols@[k].name@ == caller@);
                        }
                    }
                    None
                },
            }
        },
    }
}

/// At most one index is the caller choice.
pub proof fn lemma_caller_choice_unique(symbols: Seq<StoredSymbol>, caller: Seq<char>, ref_line: u32, k: int)
    requires
        is_caller_choice(symbols, caller, ref_line, k),
    ensures
        caller_choice(symbols, caller, ref_line) == Some(symbols[k].id),
        forall|k2: int| is_caller_choice(symbols, caller, ref_line, k2) ==> k2 == k,
{
    assert forall|k2: int| is_caller_choice(symbols, caller, ref_line, k2) implies k2 == k by {
        let named = |j: int| 0 <= j < symbols.len() && symbols[j].name@ == caller;
        assert(named(k) && named(k2));
        if exists|j: int| #[trigger] named(j) && symbols[j].line <= ref_line {
        } else {
        }
    }
    let c = choose|k2: int| is_caller_choice(symbols, caller, ref_line, k2);
    assert(c == k);
}

/// The relationships the first `k` references of a file give: for each
/// reference whose caller is a definition of the file, the caller's id and
/// the called name.
pub open spec fn relationships_of(symbols: Seq<StoredSymbol>, refs: Seq<Reference>, k: int) -> Seq<(i64, Seq<char>)>
    decreases k,
{
    if k <= 0 || k > refs.len() {
        Seq::empty()
    } else {
        let rest = relationships_of(symbols, refs, k - 1);
        match refs[k - 1].caller_name {
            Some(caller) => match caller_choice(symbols, caller@, refs[k - 1].line) {
                Some(id) => rest.push((id, refs[k - 1].callee_name@)),
                None => rest,
            },
            None => rest,
        }
    }
}

/// How many of the first `k` references have no caller among the file's
/// definitions.
pub open spec fn skipped_of(symbols: Seq<StoredSymbol>, refs: Seq<Reference>, k: int) -> nat
    decreases k,
{
    if k <= 0 || k > refs.len() {
        0
    } else {
        skipped_of(symbols, refs, k - 1) + match refs[k - 1].caller_name {
            Some(caller) => if caller_choice(symbols, caller@, refs[k - 1].line) is Some {
                0nat
            } else {
                1nat
            },
            None => 1nat,
        }
    }
}

/// The relationships a file's references give, and how many references were
/// skipped for want of a caller defined in the file.
pub fn relationships_for(symbols: &Vec<StoredSymbol>, references: &Vec<Reference>) -> (r: (Vec<(i64, String)>, usize))
    ensures
        r.0@.map_values(|p: (i64, String)| (p.0, p.1@)) == relationships_of(symbols@, references@, references@.len() as int),
        r.1 == skipped_of(symbols@, references@, references@.len() as int),
        r.0@.len() + r.1 == references@.len(),
{
    let mut rels: Vec<(i64, String)> = Vec::new();
    let mut skipped: usize = 0;
    let mut k: usize = 0;
    while k < references.len()
        invariant
            k <= references@.len(),
            rels@.map_values(|p: (i64, String)| (p.0, p.1@)) == relationships_of(symbols@, references@, k as int),
            skipped == skipped_of(symbols@, references@, k as int),
            rels@.len() + skipped == k,
        decreases references@.len() - k,
    {
        let reference = &references[k];
        let ghost before = rels@;
        match caller_symbol_id(symbols, reference) {
            Some(id) => {
                rels.push((id, String::from_str(reference.callee_name.as_str())));
                assert(rels@.map_values(|p: (i64, String)| (p.0, p.1@)) =~= before.map_values(|p: (i64, String)| (p.0, p.1@)).push(
                    (id, reference.callee_name@),
                ));
            },
            None => {
                skipped = skipped + 1;
            },
        }
        k = k + 1;
    }
    (rels, skipped)
}

/// Whether a file's stored hash matches its current one, so indexing can
/// skip it.
pub fn file_unchanged(stored: &Option<String>, current: &str) -> (b: bool)
    ensures
        b == (stored matches Some(h) && h@ == current@),
{
    match stored {
        Some(h) => str_eq(h.as_str(), current),
        None => false,
    }
}

/// The indexed paths the walk no longer found, in order.
pub open spec fn vanished_paths_spec(existing: Seq<Seq<char>>, seen: Seq<Seq<char>>) -> Seq<Seq<char>> {
    existing.filter(|p: Seq<char>| !seen.contains(p))
}

/// The indexed paths the walk no longer found, in order: their rows are
/// deleted.
pub fn vanished_paths(existing: &Vec<String>, seen: &Vec<String>) -> (out: Vec<String>)
    ensures
        out@.map_values(|s: String| s@) == vanished_paths_spec(existing@.map_values(|s: String| s@), seen@.map_values(|s: String| s@)),
{
    let ghost ev = existing@.map_values(|s: String| s@);
    let ghost sv = seen@.map_values(|s: String| s@);
    let mut out: Vec<String> = Vec::new();
    let mut k: usize = 0;
    while k < existing.len()
        invariant
            k <= existing@.len(),
            ev == existing@.map_values(|s: String| s@),
            sv == seen@.map_values(|s: String| s@),
            out@.map_values(|s: String| s@) == ev.take(k as int).filter(|p: Seq<char>| !sv.contains(p)),
        decreases existing@.len() - k,
    {
        let mut found = false;
        let mut j: usize = 0;
        while j < seen.len()
            invariant
                j <= seen@.len(),
                k < existing@.len(),
                sv == seen@.map_values(|s: String| s@),
                found == (exists|q: int| 0 <= q < j && sv[q] == existing@[k as int]@),
            decreases seen@.len() - j,
        {
            let ghost was = found;
            let eq = seen[j] == existing[k];
            assert(sv[j as int] == seen@[j as int]@);
            if eq {
                found = true;
            }
            proof {
                if found && !was {
                    assert(sv[j as int] == existing@[k as int]@);
                }
                if !found {
                    assert forall|q: int| 0 <= q < j + 1 implies sv[q] != existing@[k as int]@ by {
                        if q < j {
                            assert(!(0 <= q < j && sv[q] == existing@[k as int]@));
                        }
                    }
                }
            }
            j = j + 1;
        }
        let ghost before = out@;
        if !found {
            out.push(String::from_str(existing[k].as_str()));
            assert(out@.map_values(|s: String| s@) =~= before.map_values(|s: String| s@).push(ev[k as int]));
        }
        proof {
            reveal(Seq::filter);
            assert(ev.take(k + 1).drop_last() =~= ev.take(k as int));
            assert(ev.take(k + 1).last() == ev[k as int]);
            if found {
                let q = choose|q: int| 0 <= q < j && sv[q] == existing@[k as int]@;
                assert(sv.contains(ev[k as int]));
            } else {
                if sv.contains(ev[k as int]) {
                    let q = choose|q: int| 0 <= q < sv.len() && sv[q] == ev[k as int];
                    assert(false);
                }
            }
        }
        k = k + 1;
    }
    assert(ev.take(ev.len() as int) =~= ev);
    out
}

/// A changed file counts as stale when the index holds a hash for it and its
/// current content, which could be read, hashes otherwise.
pub open spec fn is_stale(stored: Option<String>, current: Option<String>) -> bool {
    match (stored, current) {
        (Some(s), Some(c)) => s@ != c@,
        _ => false,
    }
}

/// The paths of the first `k` files that are stale, in order.
pub open spec fn stale_paths(files: Seq<(String, Option<String>, Option<String>)>, k: int) -> Seq<Seq<char>>
    decreases k,
{
    if k <= 0 || k > files.len() {
        Seq::empty()
    } else {
        let prev = stale_paths(files, k - 1);
        if is_stale(files[k - 1].1, files[k - 1].2) {
            prev.push(files[k - 1].0@)
        } else {
            prev
        }
    }
}

/// The stale files among `files`, each given as its path, the hash the index
/// holds for it (`None` when it is not indexed) and the hash of its current
/// content (`None` when it could not be read): those indexed, readable and
/// changed since, in order.
pub fn stale_files(files: &Vec<(String, Option<String>, Option<String>)>) -> (out: Vec<String>)
    ensures
        out@.map_values(|p: String| p@) == stale_paths(files@, files@.len() as int),
{
    let mut out: Vec<String> = Vec::new();
    let mut k: usize = 0;
    while k < files.len()
        invariant
            k <= files@.len(),
            out@.map_values(|p: String| p@) == stale_paths(files@, k as int),
        decreases files@.len() - k,
    {
        let f = &files[k];
        let stale = match (&f.1, &f.2) {
            (Some(s), Some(c)) => !str_eq(s.as_str(), c.as_str()),
            _ => false,
        };
        let ghost before = out@;
        if stale {
            out.push(f.0.clone());
            assert(out@.map_values(|p: String| p@) =~= before.map_values(|p: String| p@).push(f.0@));
        }
        k = k + 1;
    }
    out
}

} // verus!
