use vstd::prelude::*;

use crate::order::{is_stable_sort, stable_sort_by_keys};
use crate::path::{
    components, is_absolute, join_from, join_slash, path_components, relative_components, RelPath,
    RepoRoot,
};
use crate::text::{chars_eq, chars_of, concat, decimal_string, decimal_text, string_from_chars};

verus! {

/// A file the walk kept: its repository-relative path, extension and size.
#[derive(Clone, Debug, PartialEq)]
pub struct WalkedFile {
    pub path: RelPath,
    pub extension: String,
    pub size: u64,
}

/// Why a directory entry was not indexed.
#[derive(Debug, Clone, PartialEq, Eq)]
pub enum SkipReason {
    WalkError(String),
    Symlink,
    Io(String),
    OutsideRoot,
    NotUtf8,
    TooLarge { size: u64, limit: u64 },
}

/// A plain picture of a skip reason.
pub enum SkipView {
    WalkError(Seq<char>),
    Symlink,
    Io(Seq<char>),
    OutsideRoot,
    NotUtf8,
    TooLarge { size: u64, limit: u64 },
}

impl View for SkipReason {
    type V = SkipView;

    open spec fn view(&self) -> SkipView {
        match self {
            SkipReason::WalkError(m) => SkipView::WalkError(m@),
            SkipReason::Symlink => SkipView::Symlink,
            SkipReason::Io(m) => SkipView::Io(m@),
            SkipReason::OutsideRoot => SkipView::OutsideRoot,
            SkipReason::NotUtf8 => SkipView::NotUtf8,
            SkipReason::TooLarge { size, limit } => SkipView::TooLarge { size: *size, limit: *limit },
        }
    }
}

/// The one-phrase category of a skip reason.
pub open spec fn skip_category(r: SkipView) -> Seq<char> {
    match r {
        SkipView::WalkError(_) => "walk error"@,
        SkipView::Symlink => "symlink"@,
        SkipView::Io(_) => "I/O error"@,
        SkipView::OutsideRoot => "outside repository root"@,
        SkipView::NotUtf8 => "not valid UTF-8"@,
        SkipView::TooLarge { .. } => "too large"@,
    }
}

/// The sentence describing a skip reason (what `Display` prints).
pub open spec fn skip_message(r: SkipView) -> Seq<char> {
    match r {
        SkipView::WalkError(m) => "could not read directory entry: "@ + m,
        SkipView::Symlink => "symbolic link, not followed"@,
        SkipView::Io(m) => "could not read file: "@ + m,
        SkipView::OutsideRoot => "resolves outside the repository root"@,
        SkipView::NotUtf8 => "not valid UTF-8 (likely a binary file)"@,
        SkipView::TooLarge { size, limit } => "file is "@ + decimal_text(size as nat) + " bytes, exceeds the "@
            + decimal_text(limit as nat) + " byte indexing limit"@,
    }
}

impl SkipReason {
    pub fn category(&self) -> (c: &'static str)
        ensures
            c@ == skip_category(self@),
    {
        match self {
            SkipReason::WalkError(_) => "walk error",
            SkipReason::Symlink => "symlink",
            SkipReason::Io(_) => "I/O error",
            SkipReason::OutsideRoot => "outside repository root",
            SkipReason::NotUtf8 => "not valid UTF-8",
            SkipReason::TooLarge { .. } => "too large",
        }
    }

    /// The sentence describing this reason.
    pub fn message(&self) -> (m: String)
        ensures
            m@ == skip_message(self@),
    {
        match self {
            SkipReason::WalkError(msg) => concat("could not read directory entry: ", msg.as_str()),
            SkipReason::Symlink => String::from_str("symbolic link, not followed"),
            SkipReason::Io(msg) => concat("could not read file: ", msg.as_str()),
            SkipReason::OutsideRoot => String::from_str("resolves outside the repository root"),
            SkipReason::NotUtf8 => String::from_str("not valid UTF-8 (likely a binary file)"),
            SkipReason::TooLarge { size, limit } => {
                let mut m = concat("file is ", decimal_string(*size).as_str());
                m.append(" bytes, exceeds the ");
                m.append(decimal_string(*limit).as_str());
                m.append(" byte indexing limit");
                m
            },
        }
    }

    /// Same as `message`.
    pub fn to_string(&self) -> (m: String)
        ensures
            m@ == skip_message(self@),
    {
        self.message()
    }
}

/// An entry that was not indexed, with the path it was reported under.
#[derive(Debug, Clone, PartialEq, Eq)]
pub struct SkippedFile {
    pub path: Option<String>,
    pub reason: SkipReason,
}

/// Which files the walk keeps.
#[derive(Clone, Debug, Default, PartialEq)]
pub struct WalkConfig {
    pub extensions: Vec<String>,
    pub follow_symlinks: bool,
}

/// The files kept, sorted by path, and the entries skipped, sorted by path
/// (entries without a path first).
#[derive(Clone, Debug, Default, PartialEq)]
pub struct WalkResult {
    pub files: Vec<WalkedFile>,
    pub skipped: Vec<SkippedFile>,
}

/// What the directory walker reported an entry to be.
#[derive(Clone, Copy, Debug, PartialEq, Eq)]
pub enum EntryKind {
    Symlink,
    File,
    Other,
}

/// One entry of the directory walk, as observed: either the walker's error,
/// or the entry's path, its type (when known), its size or the error reading
/// its metadata, and its canonical path (when it could be resolved).
#[derive(Debug, PartialEq, Eq)]
pub enum WalkEntry {
    Failed(String),
    Found { path: String, kind: Option<EntryKind>, metadata: Result<u64, String>, canonical: Option<String> },
}

/// The canonical path of every observed entry is absolute.
pub open spec fn entries_well_formed(entries: Seq<WalkEntry>) -> bool {
    forall|i: int|
        0 <= i < entries.len() ==> match #[trigger] entries[i] {
            WalkEntry::Found { canonical: Some(c), .. } => is_absolute(c@),
            _ => true,
        }
}

/// The extension of the last component of `p`: the text after its last `.`,
/// when that `.` is not the first character; none for `..`.
pub open spec fn path_extension(p: Seq<char>) -> Option<Seq<char>> {
    let comps = path_components(p);
    if comps.len() == 0 || comps.last() == seq!['.', '.'] {
        None
    } else {
        extension_of_name(comps.last())
    }
}

/// The text after the last `.` of a file name, when something precedes it.
pub open spec fn extension_of_name(name: Seq<char>) -> Option<Seq<char>> {
    if exists|i: int| 0 <= i < name.len() && name[i] == '.' {
        let i = choose|i: int|
            0 <= i < name.len() && name[i] == '.' && forall|j: int| i < j < name.len() ==> name[j] != '.';
        if i == 0 {
            None
        } else {
            Some(name.skip(i + 1))
        }
    } else {
        None
    }
}

/// The path shown for a skipped entry: relative to the root when it lies at or
/// under it, otherwise as given.
pub open spec fn display_path_spec(root: Seq<char>, p: Seq<char>) -> Seq<char> {
    let rc = path_components(root);
    let pc = path_components(p);
    if rc.len() <= pc.len() && pc.take(rc.len() as int) == rc {
        join_slash(pc.skip(rc.len() as int))
    } else {
        p
    }
}

/// What becomes of one entry.
pub enum EntryOutcome {
    Ignored,
    Kept { path: Seq<char>, extension: Seq<char>, size: u64 },
    Skipped { path: Option<Seq<char>>, reason: SkipView },
}

/// The decision for one entry: walker errors are skipped without a path;
/// anything under a `.git` directory, of unknown type, neither file nor
/// symlink, without an extension or with one not configured is ignored;
/// symlinks, unreadable metadata and paths that resolve outside the root are
/// skipped with their displayed path; every other file is kept.
pub open spec fn entry_outcome(root: Seq<char>, extensions: Seq<Seq<char>>, e: WalkEntry) -> EntryOutcome {
    match e {
        WalkEntry::Failed(m) => EntryOutcome::Skipped { path: None, reason: SkipView::WalkError(m@) },
        WalkEntry::Found { path, kind, metadata, canonical } => {
            let shown = display_path_spec(root, path@);
            if path_components(path@).contains(".git"@) {
                EntryOutcome::Ignored
            } else {
                match kind {
                    None => EntryOutcome::Ignored,
                    Some(EntryKind::Other) => EntryOutcome::Ignored,
                    Some(EntryKind::Symlink) => EntryOutcome::Skipped { path: Some(shown), reason: SkipView::Symlink },
                    Some(EntryKind::File) => match path_extension(path@) {
                        None => EntryOutcome::Ignored,
                        Some(ext) => if !extensions.contains(ext) {
                            EntryOutcome::Ignored
                        } else {
                            match metadata {
                                Err(m) => EntryOutcome::Skipped { path: Some(shown), reason: SkipView::Io(m@) },
                                Ok(size) => match canonical {
                                    None => EntryOutcome::Skipped { path: Some(shown), reason: SkipView::OutsideRoot },
                                    Some(c) => match relative_components(root, c@) {
                                        None => EntryOutcome::Skipped {
                                            path: Some(shown),
                                            reason: SkipView::OutsideRoot,
                                        },
                                        Some(rel) => EntryOutcome::Kept { path: rel, extension: ext, size },
                                    },
                                },
                            }
                        },
                    },
                }
            }
        },
    }
}

/// The extension of the last component of `p`, if any.
pub fn extension_of(p: &str) -> (ext: Option<String>)
    ensures
        ext matches Some(e) ==> path_extension(p@) == Some(e@),
        ext is None ==> path_extension(p@) is None,
{
    let comps = components(p);
    if comps.len() == 0 {
        return None;
    }
    let name = &comps[comps.len() - 1];
    proof {
        assert(name@ == path_components(p@).last());
    }
    if name.len() == 2 && name[0] == '.' && name[1] == '.' {
        proof {
            assert(name@ =~= seq!['.', '.']);
        }
        return None;
    }
    proof {
        if name@ == seq!['.', '.'] {
            assert(name@.len() == 2 && name@[0] == '.' && name@[1] == '.');
        }
    }
    let mut i = name.len();
    while i > 0 && name[i - 1] != '.'
        invariant
            i <= name@.len(),
            forall|j: int| i <= j < name@.len() ==> name@[j] != '.',
        decreases i,
    {
        i = i - 1;
    }
    if i == 0 {
        proof {
            assert(!exists|j: int| 0 <= j < name@.len() && name@[j] == '.');
        }
        return None;
    }
    let dot = i - 1;
    proof {
        let n = name@;
        assert(0 <= dot < n.len() && n[dot as int] == '.');
        let c = choose|k: int| 0 <= k < n.len() && n[k] == '.' && forall|j: int| k < j < n.len() ==> n[j] != '.';
        assert(c == dot) by {
            if c < dot {
            } else if c > dot {
            }
        }
    }
    if dot == 0 {
        return None;
    }
    let rest = crate::text::slice_chars(name.as_slice(), dot + 1, name.len());
    proof {
        assert(rest@ =~= name@.skip(dot + 1));
    }
    Some(string_from_chars(rest.as_slice()))
}

/// Whether some component of `p` is `.git`.
pub fn has_git_component(p: &str) -> (b: bool)
    ensures
        b == path_components(p@).contains(".git"@),
{
    let comps = components(p);
    let git = chars_of(".git");
    let mut i: usize = 0;
    while i < comps.len()
        invariant
            i <= comps@.len(),
            git@ == ".git"@,
            comps@.len() == path_components(p@).len(),
            forall|j: int| 0 <= j < comps@.len() ==> #[trigger] comps@[j]@ == path_components(p@)[j],
            forall|j: int| 0 <= j < i ==> path_components(p@)[j] != ".git"@,
        decreases comps@.len() - i,
    {
        if chars_eq(comps[i].as_slice(), git.as_slice()) {
            proof {
                assert(path_components(p@)[i as int] == ".git"@);
            }
            return true;
        }
        i = i + 1;
    }
    false
}

/// The path a skipped entry is shown under.
pub fn display_path(root: &RepoRoot, p: &str) -> (shown: String)
    ensures
        shown@ == display_path_spec(root@, p@),
{
    let rc = components(root.as_path());
    let pc = components(p);
    if rc.len() > pc.len() {
        return String::from_str(p);
    }
    let mut i: usize = 0;
    while i < rc.len()
        invariant
            rc@.len() <= pc@.len(),
            i <= rc@.len(),
            rc@.len() == path_components(root@).len(),
            pc@.len() == path_components(p@).len(),
            forall|j: int| 0 <= j < rc@.len() ==> #[trigger] rc@[j]@ == path_components(root@)[j],
            forall|j: int| 0 <= j < pc@.len() ==> #[trigger] pc@[j]@ == path_components(p@)[j],
            forall|j: int| 0 <= j < i ==> rc@[j]@ == pc@[j]@,
        decreases rc@.len() - i,
    {
        if !chars_eq(rc[i].as_slice(), pc[i].as_slice()) {
            proof {
                let rcs = path_components(root@);
                let pcs = path_components(p@);
                assert(pcs.take(rcs.len() as int)[i as int] == pcs[i as int]);
                assert(pcs.take(rcs.len() as int) != rcs);
            }
            return String::from_str(p);
        }
        i = i + 1;
    }
    proof {
        let rcs = path_components(root@);
        let pcs = path_components(p@);
        assert forall|j: int| 0 <= j < rcs.len() implies pcs.take(rcs.len() as int)[j] == rcs[j] by {
            assert(rc@[j]@ == pc@[j]@);
        }
        assert(pcs.take(rcs.len() as int) =~= rcs);
        assert(pc@.map_values(|v: Vec<char>| v@) =~= pcs);
    }
    join_from(&pc, rc.len())
}

/// Whether `ext` is one of the configured extensions.
fn extension_allowed(extensions: &Vec<String>, ext: &String) -> (b: bool)
    ensures
        b == extensions@.map_values(|e: String| e@).contains(ext@),
{
    let ghost exts = extensions@.map_values(|e: String| e@);
    let mut i: usize = 0;
    while i < extensions.len()
        invariant
            i <= extensions@.len(),
            exts == extensions@.map_values(|e: String| e@),
            forall|j: int| 0 <= j < i ==> exts[j] != ext@,
        decreases extensions@.len() - i,
    {
        if extensions[i] == *ext {
            proof {
                assert(exts[i as int] == ext@);
            }
            return true;
        }
        i = i + 1;
    }
    false
}

/// A kept file with its sort key, or a skipped entry with its sort key.
enum Decision {
    Ignore,
    Keep(WalkedFile),
    Skip(SkippedFile),
}

spec fn decision_matches(d: Decision, o: EntryOutcome) -> bool {
    match (d, o) {
        (Decision::Ignore, EntryOutcome::Ignored) => true,
        (Decision::Keep(f), EntryOutcome::Kept { path, extension, size }) => f.path@ == path && f.extension@
            == extension && f.size == size,
        (Decision::Skip(s), EntryOutcome::Skipped { path, reason }) => s.reason@ == reason && match (
            s.path,
            path,
        ) {
            (None, None) => true,
            (Some(a), Some(b)) => a@ == b,
            _ => false,
        },
        _ => false,
    }
}

fn decide(root: &RepoRoot, extensions: &Vec<String>, entry: WalkEntry) -> (d: Decision)
    requires
        match entry {
            WalkEntry::Found { canonical: Some(c), .. } => is_absolute(c@),
            _ => true,
        },
    ensures
        decision_matches(d, entry_outcome(root@, extensions@.map_values(|e: String| e@), entry)),
{
    match entry {
        WalkEntry::Failed(m) => Decision::Skip(SkippedFile { path: None, reason: SkipReason::WalkError(m) }),
        WalkEntry::Found { path, kind, metadata, canonical } => {
            if has_git_component(path.as_str()) {
                return Decision::Ignore;
            }
            match kind {
                None => Decision::Ignore,
                Some(EntryKind::Other) => Decision::Ignore,
                Some(EntryKind::Symlink) => Decision::Skip(
                    SkippedFile { path: Some(display_path(root, path.as_str())), reason: SkipReason::Symlink },
                ),
                Some(EntryKind::File) => {
                    let ext = match extension_of(path.as_str()) {
                        None => {
                            return Decision::Ignore;
                        },
                        Some(e) => e,
                    };
                    if !extension_allowed(extensions, &ext) {
                        return Decision::Ignore;
                    }
                    match metadata {
                        Err(m) => Decision::Skip(
                            SkippedFile { path: Some(display_path(root, path.as_str())), reason: SkipReason::Io(m) },
                        ),
                        Ok(size) => match canonical {
                            None => Decision::Skip(
                                SkippedFile {
                                    path: Some(display_path(root, path.as_str())),
                                    reason: SkipReason::OutsideRoot,
                                },
                            ),
                            Some(c) => match root.relativize_canonical(c.as_str()) {
                                Err(_) => Decision::Skip(
                                    SkippedFile {
                                        path: Some(display_path(root, path.as_str())),
                                        reason: SkipReason::OutsideRoot,
                                    },
                                ),
                                Ok(rel) => Decision::Keep(WalkedFile { path: rel, extension: ext, size }),
                            },
                        },
                    }
                },
            }
        },
    }
}

/// The files kept from `outcomes`, in order.
pub open spec fn kept_of(outcomes: Seq<EntryOutcome>) -> Seq<(Seq<char>, Seq<char>, u64)>
    decreases outcomes.len(),
{
    if outcomes.len() == 0 {
        Seq::empty()
    } else {
        match outcomes.last() {
            EntryOutcome::Kept { path, extension, size } => kept_of(outcomes.drop_last()).push(
                (path, extension, size),
            ),
            _ => kept_of(outcomes.drop_last()),
        }
    }
}

/// The entries skipped in `outcomes`, in order.
pub open spec fn skipped_of(outcomes: Seq<EntryOutcome>) -> Seq<(Option<Seq<char>>, SkipView)>
    decreases outcomes.len(),
{
    if outcomes.len() == 0 {
        Seq::empty()
    } else {
        match outcomes.last() {
            EntryOutcome::Skipped { path, reason } => skipped_of(outcomes.drop_last()).push((path, reason)),
            _ => skipped_of(outcomes.drop_last()),
        }
    }
}

/// Sort key of a skipped entry: entries without a path sort first, the others
/// by path.
pub open spec fn skip_key(path: Option<Seq<char>>) -> Seq<char> {
    match path {
        None => Seq::empty(),
        Some(p) => seq!['/'] + p,
    }
}

/// The plain picture of a kept file.
pub open spec fn walked_view(f: WalkedFile) -> (Seq<char>, Seq<char>, u64) {
    (f.path@, f.extension@, f.size)
}

/// The plain picture of a skipped entry.
pub open spec fn skipped_view(s: SkippedFile) -> (Option<Seq<char>>, SkipView) {
    (
        match s.path {
            Some(p) => Some(p@),
            None => None,
        },
        s.reason@,
    )
}

/// The outcome of every entry, in order.
pub open spec fn outcomes_of(root: Seq<char>, extensions: Seq<Seq<char>>, entries: Seq<WalkEntry>) -> Seq<EntryOutcome> {
    entries.map_values(|e: WalkEntry| entry_outcome(root, extensions, e))
}

/// Applying the same map to both sides keeps a stable sort a stable sort.
pub proof fn lemma_stable_sort_map<T, U>(out: Seq<T>, input: Seq<T>, keys: Seq<Seq<char>>, f: spec_fn(T) -> U)
    requires
        is_stable_sort(out, input, keys),
    ensures
        is_stable_sort(out.map_values(f), input.map_values(f), keys),
{
    let perm = choose|perm: Seq<int>|
        crate::order::stably_orders(perm, keys) && forall|i: int| 0 <= i < out.len() ==> #[trigger] out[i] == input[perm[i]];
    assert forall|i: int| 0 <= i < out.len() implies #[trigger] out.map_values(f)[i] == input.map_values(f)[perm[i]] by {
        assert(out[i] == input[perm[i]]);
    }
}

/// Turns the observed entries of a walk into its result: kept files sorted
/// stably by path, skipped entries sorted stably by path (no path first).
pub fn classify_entries(root: &RepoRoot, config: &WalkConfig, entries: Vec<WalkEntry>) -> (result: WalkResult)
    requires
        entries_well_formed(entries@),
    ensures
        ({
            let outcomes = outcomes_of(root@, config.extensions@.map_values(|e: String| e@), entries@);
            &&& is_stable_sort(
                result.files@.map_values(|f: WalkedFile| walked_view(f)),
                kept_of(outcomes),
                kept_of(outcomes).map_values(|k: (Seq<char>, Seq<char>, u64)| k.0),
            )
            &&& is_stable_sort(
                result.skipped@.map_values(|s: SkippedFile| skipped_view(s)),
                skipped_of(outcomes),
                skipped_of(outcomes).map_values(|k: (Option<Seq<char>>, SkipView)| skip_key(k.0)),
            )
        }),
{
    let ghost exts = config.extensions@.map_values(|e: String| e@);
    let ghost all = entries@;
    let ghost outcomes = outcomes_of(root@, exts, all);
    let mut rest = entries;
    let total = rest.len();
    let mut files: Vec<WalkedFile> = Vec::new();
    let mut file_keys: Vec<Vec<char>> = Vec::new();
    let mut skipped: Vec<SkippedFile> = Vec::new();
    let mut skip_keys: Vec<Vec<char>> = Vec::new();
    let mut i: usize = 0;
    proof {
        assert(outcomes.take(0) =~= Seq::<EntryOutcome>::empty());
    }
    while rest.len() > 0
        invariant
            all.len() == i + rest@.len(),
            all.len() == total,
            rest@ == all.skip(i as int),
            entries_well_formed(all),
            exts == config.extensions@.map_values(|e: String| e@),
            outcomes == outcomes_of(root@, exts, all),
            files@.map_values(|f: WalkedFile| walked_view(f)) == kept_of(outcomes.take(i as int)),
            file_keys@.len() == files@.len(),
            forall|j: int| 0 <= j < files@.len() ==> #[trigger] file_keys@[j]@ == files@[j].path@,
            skipped@.map_values(|s: SkippedFile| skipped_view(s)) == skipped_of(outcomes.take(i as int)),
            skip_keys@.len() == skipped@.len(),
            forall|j: int| 0 <= j < skipped@.len() ==> #[trigger] skip_keys@[j]@ == skip_key(skipped_view(skipped@[j]).0),
        decreases rest@.len(),
    {
        let entry = rest.remove(0);
        proof {
            assert(entry == all[i as int]);
            assert(rest@ =~= all.skip(i + 1));
            assert(outcomes.take(i + 1).drop_last() =~= outcomes.take(i as int));
            assert(outcomes.take(i + 1).last() == entry_outcome(root@, exts, entry));
        }
        let d = decide(root, &config.extensions, entry);
        match d {
            Decision::Ignore => {},
            Decision::Keep(f) => {
                let key = chars_of(f.path.as_ref());
                let ghost before = files@;
                files.push(f);
                file_keys.push(key);
                proof {
                    assert(files@.map_values(|f: WalkedFile| walked_view(f)) =~= before.map_values(
                        |f: WalkedFile| walked_view(f),
                    ).push(walked_view(files@.last())));
                }
            },
            Decision::Skip(sk) => {
                let key: Vec<char> = match &sk.path {
                    None => Vec::new(),
                    Some(p) => {
                        let mut k: Vec<char> = Vec::new();
                        k.push('/');
                        let cs = chars_of(p.as_str());
                        let mut j: usize = 0;
                        while j < cs.len()
                            invariant
                                j <= cs@.len(),
                                k@ == seq!['/'] + cs@.take(j as int),
                            decreases cs@.len() - j,
                        {
                            k.push(cs[j]);
                            assert(cs@.take((j + 1) as int) =~= cs@.take(j as int).push(cs@[j as int]));
                            j = j + 1;
                        }
                        assert(cs@.take(cs@.len() as int) =~= cs@);
                        k
                    },
                };
                proof {
                    if sk.path is None {
                        assert(key@ =~= Seq::<char>::empty());
                    }
                }
                let ghost before = skipped@;
                skipped.push(sk);
                skip_keys.push(key);
                proof {
                    assert(skipped@.map_values(|s: SkippedFile| skipped_view(s)) =~= before.map_values(
                        |s: SkippedFile| skipped_view(s),
                    ).push(skipped_view(skipped@.last())));
                }
            },
        }
        i = i + 1;
    }
    proof {
        assert(outcomes.take(i as int) =~= outcomes);
    }
    let ghost fin = files@;
    let ghost sin = skipped@;
    let sorted_files = stable_sort_by_keys(files, file_keys);
    let sorted_skipped = stable_sort_by_keys(skipped, skip_keys);
    proof {
        let kv = kept_of(outcomes);
        let fk = file_keys@.map_values(|k: Vec<char>| k@);
        assert(fin.map_values(|f: WalkedFile| walked_view(f)) == kv);
        assert(fk =~= kv.map_values(|k: (Seq<char>, Seq<char>, u64)| k.0)) by {
            assert forall|j: int| 0 <= j < fk.len() implies fk[j] == kv.map_values(|k: (Seq<char>, Seq<char>, u64)| k.0)[j] by {
                assert(kv[j] == fin.map_values(|f: WalkedFile| walked_view(f))[j]);
            }
        }
        lemma_stable_sort_map(sorted_files@, fin, fk, |f: WalkedFile| walked_view(f));
        let sv = skipped_of(outcomes);
        let sk = skip_keys@.map_values(|k: Vec<char>| k@);
        assert(sin.map_values(|s: SkippedFile| skipped_view(s)) == sv);
        assert(sk =~= sv.map_values(|k: (Option<Seq<char>>, SkipView)| skip_key(k.0))) by {
            assert forall|j: int| 0 <= j < sk.len() implies sk[j] == sv.map_values(|k: (Option<Seq<char>>, SkipView)| skip_key(k.0))[j] by {
                assert(sv[j] == sin.map_values(|s: SkippedFile| skipped_view(s))[j]);
            }
        }
        lemma_stable_sort_map(sorted_skipped@, sin, sk, |s: SkippedFile| skipped_view(s));
    }
    WalkResult { files: sorted_files, skipped: sorted_skipped }
}

proof fn lemma_kept_from_outcomes(outcomes: Seq<EntryOutcome>, i: int)
    requires
        0 <= i < kept_of(outcomes).len(),
    ensures
        exists|j: int|
            0 <= j < outcomes.len() && #[trigger] outcomes[j] == (EntryOutcome::Kept {
                path: kept_of(outcomes)[i].0,
                extension: kept_of(outcomes)[i].1,
                size: kept_of(outcomes)[i].2,
            }),
    decreases outcomes.len(),
{
    let init = outcomes.drop_last();
    let last = outcomes.len() - 1;
    match outcomes.last() {
        EntryOutcome::Kept { path, extension, size } => {
            if i < kept_of(init).len() {
                lemma_kept_from_outcomes(init, i);
                let j = choose|j: int|
                    0 <= j < init.len() && #[trigger] init[j] == (EntryOutcome::Kept {
                        path: kept_of(init)[i].0,
                        extension: kept_of(init)[i].1,
                        size: kept_of(init)[i].2,
                    });
                assert(outcomes[j] == init[j]);
            } else {
                assert(outcomes[last] == outcomes.last());
            }
        },
        _ => {
            lemma_kept_from_outcomes(init, i);
            let j = choose|j: int|
                0 <= j < init.len() && #[trigger] init[j] == (EntryOutcome::Kept {
                    path: kept_of(init)[i].0,
                    extension: kept_of(init)[i].1,
                    size: kept_of(init)[i].2,
                });
            assert(outcomes[j] == init[j]);
        },
    }
}

/// The walk found `e` as a regular file outside any `.git` directory.
pub open spec fn regular_file_outside_git(e: WalkEntry) -> bool {
    match e {
        WalkEntry::Found { path, kind, .. } => kind == Some(EntryKind::File) && !path_components(path@).contains(".git"@),
        _ => false,
    }
}

/// The fate of each walked entry: a walker error is skipped without a path;
/// anything under `.git`, of unknown type or neither file nor symlink is
/// ignored; a symlink is skipped as such; a file with a configured extension
/// whose metadata cannot be read is skipped with that error; a file without a
/// configured extension is ignored; and a kept file was found as a file with
/// a configured extension, readable metadata of its size, outside `.git`.
pub proof fn lemma_entry_fates(root: Seq<char>, extensions: Seq<Seq<char>>, e: WalkEntry)
    ensures
        (match e {
            WalkEntry::Failed(m) => entry_outcome(root, extensions, e) == (EntryOutcome::Skipped {
                path: None,
                reason: SkipView::WalkError(m@),
            }),
            WalkEntry::Found { path, kind, metadata, .. } => {
                let shown = display_path_spec(root, path@);
                let git = path_components(path@).contains(".git"@);
                let configured = path_extension(path@) is Some && extensions.contains(path_extension(path@)->0);
                &&& git ==> entry_outcome(root, extensions, e) is Ignored
                &&& !git && (kind is None || kind == Some(EntryKind::Other)) ==> entry_outcome(root, extensions, e) is Ignored
                &&& !git && kind == Some(EntryKind::Symlink) ==> entry_outcome(root, extensions, e) == (EntryOutcome::Skipped {
                    path: Some(shown),
                    reason: SkipView::Symlink,
                })
                &&& !git && kind == Some(EntryKind::File) && configured && metadata is Err ==> entry_outcome(root, extensions, e)
                    == (EntryOutcome::Skipped { path: Some(shown), reason: SkipView::Io(metadata->Err_0@) })
                &&& kind == Some(EntryKind::File) && !configured ==> entry_outcome(root, extensions, e) is Ignored
            },
        }),
        (match entry_outcome(root, extensions, e) {
            EntryOutcome::Kept { extension, size, .. } => match e {
                WalkEntry::Found { path, kind, metadata, .. } => {
                    &&& kind == Some(EntryKind::File)
                    &&& !path_components(path@).contains(".git"@)
                    &&& path_extension(path@) == Some(extension)
                    &&& extensions.contains(extension)
                    &&& metadata == Ok::<u64, String>(size)
                },
                WalkEntry::Failed(_) => false,
            },
            _ => true,
        }),
{
}

proof fn lemma_skipped_listed(outcomes: Seq<EntryOutcome>, e: int, path: Option<Seq<char>>, reason: SkipView)
    requires
        0 <= e < outcomes.len(),
        outcomes[e] == (EntryOutcome::Skipped { path, reason }),
    ensures
        skipped_of(outcomes).contains((path, reason)),
    decreases outcomes.len(),
{
    let init = outcomes.drop_last();
    if e < outcomes.len() - 1 {
        assert(init[e] == outcomes[e]);
        lemma_skipped_listed(init, e, path, reason);
        let x = choose|x: int| 0 <= x < skipped_of(init).len() && skipped_of(init)[x] == (path, reason);
        match outcomes.last() {
            EntryOutcome::Skipped { path: p2, reason: r2 } => {
                assert(skipped_of(outcomes) == skipped_of(init).push((p2, r2)));
                assert(skipped_of(outcomes)[x] == (path, reason));
            },
            _ => {},
        }
    } else {
        assert(outcomes.last() == outcomes[e]);
        let s = skipped_of(outcomes);
        assert(s == skipped_of(init).push((path, reason)));
        assert(s[s.len() - 1] == (path, reason));
    }
}

/// Every symlink the walk finds outside a `.git` directory is reported among
/// the skipped entries, with its displayed path and the reason `Symlink`:
/// symlinks are neither kept nor silently ignored.
pub proof fn lemma_symlinks_reported(
    root: Seq<char>,
    extensions: Seq<Seq<char>>,
    entries: Seq<WalkEntry>,
    skipped: Seq<(Option<Seq<char>>, SkipView)>,
    e: int,
)
    requires
        is_stable_sort(
            skipped,
            skipped_of(outcomes_of(root, extensions, entries)),
            skipped_of(outcomes_of(root, extensions, entries)).map_values(|k: (Option<Seq<char>>, SkipView)| skip_key(k.0)),
        ),
        0 <= e < entries.len(),
        entries[e] is Found,
        entries[e]->kind == Some(EntryKind::Symlink),
        !path_components(entries[e]->path@).contains(".git"@),
    ensures
        skipped.contains((Some(display_path_spec(root, entries[e]->path@)), SkipView::Symlink)),
        !(entry_outcome(root, extensions, entries[e]) is Ignored),
        !(entry_outcome(root, extensions, entries[e]) is Kept),
{
    let outcomes = outcomes_of(root, extensions, entries);
    let item = (Some(display_path_spec(root, entries[e]->path@)), SkipView::Symlink);
    assert(outcomes[e] == entry_outcome(root, extensions, entries[e]));
    lemma_skipped_listed(outcomes, e, item.0, item.1);
    let input = skipped_of(outcomes);
    let keys = input.map_values(|k: (Option<Seq<char>>, SkipView)| skip_key(k.0));
    let x = choose|x: int| 0 <= x < input.len() && input[x] == item;
    let perm = choose|perm: Seq<int>|
        crate::order::stably_orders(perm, keys) && forall|i: int| 0 <= i < skipped.len() ==> #[trigger] skipped[i] == input[perm[i]];
    crate::order::lemma_permutation_onto(perm, keys.len(), x);
    let i = choose|i: int| 0 <= i < keys.len() && perm[i] == x;
    assert(skipped[i] == input[x]);
}

/// The result of a walk is a function of the entries it observed: two
/// results sorted stably from the same entries are the same. Where the walk
/// observed no path twice, the files come in strictly ascending order of path.
pub proof fn lemma_walk_determined(
    root: Seq<char>,
    extensions: Seq<Seq<char>>,
    entries: Seq<WalkEntry>,
    files: Seq<(Seq<char>, Seq<char>, u64)>,
    again: Seq<(Seq<char>, Seq<char>, u64)>,
)
    requires
        is_stable_sort(
            files,
            kept_of(outcomes_of(root, extensions, entries)),
            kept_of(outcomes_of(root, extensions, entries)).map_values(|k: (Seq<char>, Seq<char>, u64)| k.0),
        ),
        is_stable_sort(
            again,
            kept_of(outcomes_of(root, extensions, entries)),
            kept_of(outcomes_of(root, extensions, entries)).map_values(|k: (Seq<char>, Seq<char>, u64)| k.0),
        ),
    ensures
        files == again,
        (forall|a: int, b: int|
            0 <= a < b < kept_of(outcomes_of(root, extensions, entries)).len() ==> (#[trigger] kept_of(
                outcomes_of(root, extensions, entries),
            )[a]).0 != (#[trigger] kept_of(outcomes_of(root, extensions, entries))[b]).0) ==> forall|i: int, j: int|
            0 <= i < j < files.len() ==> files[i].0 != files[j].0,
{
    let kept = kept_of(outcomes_of(root, extensions, entries));
    let keys = kept.map_values(|k: (Seq<char>, Seq<char>, u64)| k.0);
    crate::order::lemma_stable_sort_unique(files, again, kept, keys);
    if forall|a: int, b: int| 0 <= a < b < kept.len() ==> (#[trigger] kept[a]).0 != (#[trigger] kept[b]).0 {
        let perm = choose|perm: Seq<int>|
            crate::order::stably_orders(perm, keys) && forall|i: int| 0 <= i < files.len() ==> #[trigger] files[i] == kept[perm[i]];
        assert forall|i: int, j: int| 0 <= i < j < files.len() implies files[i].0 != files[j].0 by {
            assert(files[i] == kept[perm[i]]);
            assert(files[j] == kept[perm[j]]);
            assert(perm[i] != perm[j]);
            if perm[i] < perm[j] {
                assert(kept[perm[i]].0 != kept[perm[j]].0);
            } else {
                assert(kept[perm[j]].0 != kept[perm[i]].0);
            }
        }
    }
}

/// A walk lists its files in ascending order of path, each with one of the
/// configured extensions, each found by the walk as a regular file outside
/// any `.git` directory.
pub proof fn lemma_walk_files_ordered(
    root: Seq<char>,
    extensions: Seq<Seq<char>>,
    entries: Seq<WalkEntry>,
    files: Seq<(Seq<char>, Seq<char>, u64)>,
)
    requires
        is_stable_sort(
            files,
            kept_of(outcomes_of(root, extensions, entries)),
            kept_of(outcomes_of(root, extensions, entries)).map_values(|k: (Seq<char>, Seq<char>, u64)| k.0),
        ),
    ensures
        forall|i: int, j: int| 0 <= i < j < files.len() ==> crate::order::lex_le(files[i].0, files[j].0),
        forall|i: int|
            0 <= i < files.len() ==> extensions.contains((#[trigger] files[i]).1) && exists|e: int|
                0 <= e < entries.len() && #[trigger] regular_file_outside_git(entries[e]),
{
    let outcomes = outcomes_of(root, extensions, entries);
    let kept = kept_of(outcomes);
    let keys = kept.map_values(|k: (Seq<char>, Seq<char>, u64)| k.0);
    let perm = choose|perm: Seq<int>|
        crate::order::stably_orders(perm, keys) && forall|i: int| 0 <= i < files.len() ==> #[trigger] files[i] == kept[perm[i]];
    assert forall|i: int, j: int| 0 <= i < j < files.len() implies crate::order::lex_le(files[i].0, files[j].0) by {
        assert(files[i] == kept[perm[i]]);
        assert(files[j] == kept[perm[j]]);
        assert(keys[perm[i]] == kept[perm[i]].0);
        assert(keys[perm[j]] == kept[perm[j]].0);
    }
    assert forall|i: int| 0 <= i < files.len() implies extensions.contains((#[trigger] files[i]).1) && exists|e: int|
        0 <= e < entries.len() && #[trigger] regular_file_outside_git(entries[e]) by {
        assert(files[i] == kept[perm[i]]);
        lemma_kept_from_outcomes(outcomes, perm[i]);
        let j = choose|j: int|
            0 <= j < outcomes.len() && #[trigger] outcomes[j] == (EntryOutcome::Kept {
                path: kept[perm[i]].0,
                extension: kept[perm[i]].1,
                size: kept[perm[i]].2,
            });
        assert(outcomes[j] == entry_outcome(root, extensions, entries[j]));
        assert(regular_file_outside_git(entries[j]));
    }
}

} // verus!
