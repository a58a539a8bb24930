use vstd::prelude::*;

use crate::error::Error;
use crate::text::{chars_eq, chars_of, string_from_chars};

verus! {

/// Ends the segment being read: empty segments and `.` do not count as
/// components.
pub open spec fn flush_segment(done: Seq<Seq<char>>, current: Seq<char>) -> Seq<Seq<char>> {
    if current.len() == 0 || current == seq!['.'] {
        done
    } else {
        done.push(current)
    }
}

/// Reading `p` left to right: the components finished so far and the segment
/// being read.
pub open spec fn components_scan(p: Seq<char>) -> (Seq<Seq<char>>, Seq<char>)
    decreases p.len(),
{
    if p.len() == 0 {
        (Seq::empty(), Seq::empty())
    } else {
        let (done, current) = components_scan(p.drop_last());
        if p.last() == '/' {
            (flush_segment(done, current), Seq::empty())
        } else {
            (done, current.push(p.last()))
        }
    }
}

/// The named components of a `/`-separated path: its segments, leaving out
/// empty ones and `.`.
pub open spec fn path_components(p: Seq<char>) -> Seq<Seq<char>> {
    let (done, current) = components_scan(p);
    flush_segment(done, current)
}

/// `segments` joined with `/`.
pub open spec fn join_slash(segments: Seq<Seq<char>>) -> Seq<char>
    decreases segments.len(),
{
    if segments.len() == 0 {
        Seq::empty()
    } else if segments.len() == 1 {
        segments[0]
    } else {
        join_slash(segments.drop_last()) + seq!['/'] + segments.last()
    }
}

/// An absolute path: it starts at `/`.
pub open spec fn is_absolute(p: Seq<char>) -> bool {
    p.len() > 0 && p[0] == '/'
}

/// The path of `target` relative to `root`, both absolute: the components of
/// `target` after those of `root`, joined with `/`, when `root`'s components
/// are a proper prefix of `target`'s.
pub open spec fn relative_components(root: Seq<char>, target: Seq<char>) -> Option<Seq<char>> {
    let rc = path_components(root);
    let tc = path_components(target);
    if rc.len() < tc.len() && tc.take(rc.len() as int) == rc {
        Some(join_slash(tc.skip(rc.len() as int)))
    } else {
        None
    }
}

/// The canonical, absolute directory a repository is rooted at.
#[derive(Debug, PartialEq, Eq, Hash)]
pub struct RepoRoot(String);

impl Clone for RepoRoot {
    fn clone(&self) -> (c: Self)
        ensures
            c@ == self@,
    {
        proof {
            use_type_invariant(self);
        }
        RepoRoot(self.0.clone())
    }
}

impl View for RepoRoot {
    type V = Seq<char>;

    closed spec fn view(&self) -> Seq<char> {
        self.0@
    }
}

impl RepoRoot {
    #[verifier::type_invariant]
    spec fn wf(self) -> bool {
        is_absolute(self.0@)
    }

    /// A root at the given canonical directory; a path that is not absolute is
    /// refused as an invalid root.
    pub fn from_canonical(path: &str) -> (r: Result<RepoRoot, Error>)
        ensures
            r matches Ok(root) ==> root@ == path@ && is_absolute(path@),
            r matches Err(e) ==> !is_absolute(path@) && (e matches Error::InvalidRepoRoot { path: p }
                && p@ == path@),
    {
        let cs = chars_of(path);
        if cs.len() > 0 && cs[0] == '/' {
            Ok(RepoRoot(String::from_str(path)))
        } else {
            Err(Error::InvalidRepoRoot { path: String::from_str(path) })
        }
    }

    /// The root directory.
    pub fn as_path(&self) -> (p: &str)
        ensures
            p@ == self@,
    {
        self.0.as_str()
    }

    /// The repository-relative path of `canonical`, an absolute canonical path:
    /// an error when it is the root itself or lies outside it.
    pub fn relativize_canonical(&self, canonical: &str) -> (r: Result<RelPath, Error>)
        requires
            is_absolute(canonical@),
        ensures
            r matches Ok(rel) ==> relative_components(self@, canonical@) == Some(rel@),
            r matches Err(e) ==> relative_components(self@, canonical@) is None && (e matches Error::PathEscapesRoot {
                path: p,
            } && p@ == canonical@),
    {
        let rc = components(self.0.as_str());
        let tc = components(canonical);
        if rc.len() < tc.len() {
            let mut i: usize = 0;
            while i < rc.len()
                invariant
                    rc@.len() < tc@.len(),
                    i <= rc@.len(),
                    rc@.len() == path_components(self@).len(),
                    tc@.len() == path_components(canonical@).len(),
                    forall|j: int| 0 <= j < rc@.len() ==> #[trigger] rc@[j]@ == path_components(self@)[j],
                    forall|j: int| 0 <= j < tc@.len() ==> #[trigger] tc@[j]@ == path_components(canonical@)[j],
                    forall|j: int| 0 <= j < i ==> rc@[j]@ == tc@[j]@,
                decreases rc@.len() - i,
            {
                if !chars_eq(rc[i].as_slice(), tc[i].as_slice()) {
                    proof {
                        let rcs = path_components(self@);
                        let tcs = path_components(canonical@);
                        assert(rc@[i as int]@ != tc@[i as int]@);
                        assert(tcs.take(rcs.len() as int)[i as int] == tcs[i as int]);
                        assert(tcs.take(rcs.len() as int) != rcs);
                    }
                    return Err(Error::PathEscapesRoot { path: String::from_str(canonical) });
                }
                i = i + 1;
            }
            proof {
                let rcs = path_components(self@);
                let tcs = path_components(canonical@);
                assert forall|j: int| 0 <= j < rcs.len() implies tcs.take(rcs.len() as int)[j] == rcs[j] by {
                    assert(rc@[j]@ == tc@[j]@);
                }
                assert(tcs.take(rcs.len() as int) =~= rcs);
            }
            let joined = join_from(&tc, rc.len());
            proof {
                let tcs = path_components(canonical@);
                assert(tc@.map_values(|v: Vec<char>| v@) =~= tcs);
            }
            Ok(RelPath(joined))
        } else {
            Err(Error::PathEscapesRoot { path: String::from_str(canonical) })
        }
    }
}

/// The components of `p`, each as its characters.
pub(crate) fn components(p: &str) -> (out: Vec<Vec<char>>)
    ensures
        out@.len() == path_components(p@).len(),
        forall|j: int| 0 <= j < out@.len() ==> #[trigger] out@[j]@ == path_components(p@)[j],
{
    let cs = chars_of(p);
    let mut done: Vec<Vec<char>> = Vec::new();
    let mut current: Vec<char> = Vec::new();
    let mut i: usize = 0;
    while i < cs.len()
        invariant
            cs@ == p@,
            i <= cs@.len(),
            done@.len() == components_scan(cs@.take(i as int)).0.len(),
            forall|j: int| 0 <= j < done@.len() ==> #[trigger] done@[j]@ == components_scan(cs@.take(i as int)).0[j],
            current@ == components_scan(cs@.take(i as int)).1,
        decreases cs@.len() - i,
    {
        proof {
            assert(cs@.take((i + 1) as int).drop_last() =~= cs@.take(i as int));
        }
        let c = cs[i];
        if c == '/' {
            flush(&mut done, current);
            current = Vec::new();
        } else {
            current.push(c);
        }
        i = i + 1;
    }
    proof {
        assert(cs@.take(cs@.len() as int) =~= cs@);
    }
    flush(&mut done, current);
    done
}

fn flush(done: &mut Vec<Vec<char>>, current: Vec<char>)
    ensures
        final(done)@.len() == flush_segment(old(done)@.map_values(|v: Vec<char>| v@), current@).len(),
        forall|j: int|
            0 <= j < final(done)@.len() ==> #[trigger] final(done)@[j]@ == flush_segment(
                old(done)@.map_values(|v: Vec<char>| v@),
                current@,
            )[j],
{
    let is_dot = current.len() == 1 && current[0] == '.';
    proof {
        assert(is_dot == (current@ == seq!['.'])) by {
            if current@.len() == 1 && current@[0] == '.' {
                assert(current@ =~= seq!['.']);
            }
        }
    }
    if current.len() > 0 && !is_dot {
        done.push(current);
    }
}

/// `segments[from..]` joined with `/`.
pub(crate) fn join_from(segments: &Vec<Vec<char>>, from: usize) -> (s: String)
    requires
        from <= segments@.len(),
    ensures
        s@ == join_slash(segments@.map_values(|v: Vec<char>| v@).skip(from as int)),
{
    let ghost all = segments@.map_values(|v: Vec<char>| v@);
    let mut out: Vec<char> = Vec::new();
    let mut i = from;
    proof {
        assert(all.skip(from as int).take(0) =~= Seq::<Seq<char>>::empty());
    }
    while i < segments.len()
        invariant
            from <= i <= segments@.len(),
            all == segments@.map_values(|v: Vec<char>| v@),
            out@ == join_slash(all.skip(from as int).take(i - from)),
        decreases segments@.len() - i,
    {
        let ghost prev = all.skip(from as int).take(i - from);
        let ghost next = all.skip(from as int).take(i + 1 - from);
        proof {
            assert(next.drop_last() =~= prev);
            assert(next.last() == segments@[i as int]@);
        }
        if i > from {
            out.push('/');
        }
        let seg = &segments[i];
        let mut k: usize = 0;
        let ghost base = out@;
        while k < seg.len()
            invariant
                k <= seg@.len(),
                out@ == base + seg@.take(k as int),
            decreases seg@.len() - k,
        {
            out.push(seg[k]);
            assert(seg@.take((k + 1) as int) =~= seg@.take(k as int).push(seg@[k as int]));
            k = k + 1;
        }
        proof {
            assert(seg@.take(seg@.len() as int) =~= seg@);
            if i == from {
                assert(next.len() == 1);
                assert(out@ =~= next[0]);
            } else {
                assert(out@ =~= join_slash(prev) + seq!['/'] + next.last());
            }
        }
        i = i + 1;
    }
    proof {
        assert(all.skip(from as int).take(segments@.len() - from) =~= all.skip(from as int));
    }
    string_from_chars(out.as_slice())
}

/// A repository-relative path with `/` separators, as stored in the index.
#[derive(Debug, Clone, PartialEq, Eq, Hash)]
pub struct RelPath(String);

impl View for RelPath {
    type V = Seq<char>;

    closed spec fn view(&self) -> Seq<char> {
        self.0@
    }
}

impl RelPath {
    /// Wraps a path read back from the index, as it was stored.
    pub fn from_stored(s: &str) -> (p: RelPath)
        ensures
            p@ == s@,
    {
        RelPath(String::from_str(s))
    }

    /// The path text.
    pub fn as_ref(&self) -> (s: &str)
        ensures
            s@ == self@,
    {
        self.0.as_str()
    }

    /// The path text as an owned string (what `Display` prints).
    pub fn to_string(&self) -> (s: String)
        ensures
            s@ == self@,
    {
        self.0.clone()
    }
}

} // verus!
