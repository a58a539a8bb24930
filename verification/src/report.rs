use vstd::prelude::*;

use crate::audit::{AuditEvent, SymbolCoverage};
use crate::diff::FileRanges;
use crate::text::{decimal_string, decimal_text};

verus! {

/// The events recorded at or after `cutoff`, in order.
pub open spec fn events_since_spec(events: Seq<AuditEvent>, cutoff: i64) -> Seq<AuditEvent> {
    events.filter(|e: AuditEvent| e.ts >= cutoff)
}

/// Keeps the events recorded at or after `cutoff`, in order.
pub fn events_since(events: Vec<AuditEvent>, cutoff: i64) -> (out: Vec<AuditEvent>)
    ensures
        out@ == events_since_spec(events@, cutoff),
{
    let ghost all = events@;
    let mut rest = events;
    let mut kept: Vec<AuditEvent> = Vec::new();
    while rest.len() > 0
        invariant
            all == all.take(all.len() - rest@.len()) + rest@,
            rest@.len() <= all.len(),
            kept@ == all.take(all.len() - rest@.len()).filter(|e: AuditEvent| e.ts >= cutoff),
        decreases rest@.len(),
    {
        let ghost k = all.len() - rest@.len();
        let ghost r0 = rest@;
        let e = rest.remove(0);
        proof {
            assert(all[k] == r0[0]) by {
                assert((all.take(k) + r0)[k] == r0[0]);
            }
            assert(rest@ =~= r0.subrange(1, r0.len() as int));
        }
        if e.ts >= cutoff {
            kept.push(e);
        }
        proof {
            reveal(Seq::filter);
            assert(all.take(k + 1).drop_last() =~= all.take(k));
            assert(all.take(k + 1).last() == all[k]);
            assert(all =~= all.take(k + 1) + rest@);
        }
    }
    assert(all.take(all.len() as int) =~= all);
    kept
}

/// How many of the first `k` changed symbols no `impact` call covered.
pub open spec fn unchecked_count(cs: Seq<SymbolCoverage>, k: int) -> nat
    decreases k,
{
    if k <= 0 || k > cs.len() {
        0
    } else {
        unchecked_count(cs, k - 1) + if cs[k - 1].impact_checked {
            0nat
        } else {
            1nat
        }
    }
}

/// How many changed symbols no `impact` call covered.
pub fn count_unchecked(coverages: &Vec<SymbolCoverage>) -> (n: usize)
    ensures
        n == unchecked_count(coverages@, coverages@.len() as int),
{
    let mut n: usize = 0;
    let mut k: usize = 0;
    while k < coverages.len()
        invariant
            k <= coverages@.len(),
            n == unchecked_count(coverages@, k as int),
            n <= k,
        decreases coverages@.len() - k,
    {
        if !coverages[k].impact_checked {
            n = n + 1;
        }
        k = k + 1;
    }
    n
}

/// `singular` for one, `plural` otherwise.
pub open spec fn plural(n: nat, singular: Seq<char>, plural: Seq<char>) -> Seq<char> {
    if n == 1 {
        singular
    } else {
        plural
    }
}

/// The audit summary line: `Q quer(y|ies) recorded, C symbol(s) changed, U
/// unchecked`.
pub open spec fn summary_line_spec(queries: nat, changed: nat, unchecked: nat) -> Seq<char> {
    decimal_text(queries) + " quer"@ + plural(queries, "y"@, "ies"@) + " recorded, "@ + decimal_text(changed) + " symbol"@
        + plural(changed, ""@, "s"@) + " changed, "@ + decimal_text(unchecked) + " unchecked"@
}

/// The audit summary line.
pub fn summary_line(queries: usize, changed: usize, unchecked: usize) -> (s: String)
    ensures
        s@ == summary_line_spec(queries as nat, changed as nat, unchecked as nat),
{
    let mut s = decimal_string(queries as u64);
    s.append(" quer");
    s.append(if queries == 1 {
        "y"
    } else {
        "ies"
    });
    s.append(" recorded, ");
    s.append(decimal_string(changed as u64).as_str());
    s.append(" symbol");
    s.append(if changed == 1 {
        ""
    } else {
        "s"
    });
    s.append(" changed, ");
    s.append(decimal_string(unchecked as u64).as_str());
    s.append(" unchecked");
    s
}

/// The changed files not in `stale`, in order.
pub open spec fn without_stale_spec(files: Seq<FileRanges>, stale: Seq<Seq<char>>) -> Seq<FileRanges> {
    files.filter(|f: FileRanges| !stale.contains(f.file@))
}

/// Whether `s` is among `list`.
fn contains_string(list: &Vec<String>, s: &String) -> (b: bool)
    ensures
        b == list@.map_values(|t: String| t@).contains(s@),
{
    let ghost lv = list@.map_values(|t: String| t@);
    let mut k: usize = 0;
    while k < list.len()
        invariant
            k <= list@.len(),
            lv == list@.map_values(|t: String| t@),
            forall|j: int| 0 <= j < k ==> lv[j] != s@,
        decreases list@.len() - k,
    {
        if list[k] == *s {
            assert(lv[k as int] == s@);
            return true;
        }
        k = k + 1;
    }
    false
}

/// Drops the files whose index is stale from the changed files.
pub fn without_stale(files: Vec<FileRanges>, stale: &Vec<String>) -> (out: Vec<FileRanges>)
    ensures
        out@ == without_stale_spec(files@, stale@.map_values(|t: String| t@)),
{
    let ghost sv = stale@.map_values(|t: String| t@);
    let ghost all = files@;
    let mut rest = files;
    let mut out: Vec<FileRanges> = Vec::new();
    while rest.len() > 0
        invariant
            sv == stale@.map_values(|t: String| t@),
            all == all.take(all.len() - rest@.len()) + rest@,
            rest@.len() <= all.len(),
            out@ == all.take(all.len() - rest@.len()).filter(|f: FileRanges| !sv.contains(f.file@)),
        decreases rest@.len(),
    {
        let ghost k = all.len() - rest@.len();
        let ghost r0 = rest@;
        let f = rest.remove(0);
        proof {
            assert(all[k] == r0[0]) by {
                assert((all.take(k) + r0)[k] == r0[0]);
            }
            assert(rest@ =~= r0.subrange(1, r0.len() as int));
        }
        if !contains_string(stale, &f.file) {
            out.push(f);
        }
        proof {
            reveal(Seq::filter);
            assert(all.take(k + 1).drop_last() =~= all.take(k));
            assert(all.take(k + 1).last() == all[k]);
            assert(all =~= all.take(k + 1) + rest@);
        }
    }
    assert(all.take(all.len() as int) =~= all);
    out
}

} // verus!
