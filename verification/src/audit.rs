use vstd::prelude::*;

use crate::query::ImpactNode;
use crate::text::chars_of;

verus! {

/// One recorded tool call: when, which tool, and the symbol it was about.
#[derive(Debug, Clone, PartialEq, Eq)]
pub struct AuditEvent {
    pub ts: i64,
    pub tool: String,
    pub name: String,
    pub file: String,
    pub line: u32,
}

/// Seconds since the Unix epoch, read from the system clock; `None` when the
/// clock reads before the epoch.
#[verifier::external_body]
pub(crate) fn unix_time_secs() -> (secs: Option<u64>) {
    std::time::SystemTime::now().duration_since(std::time::UNIX_EPOCH).ok().map(|d| d.as_secs())
}

/// The timestamp of a clock reading: its seconds (as `i64`, as the cast
/// gives them), or zero for a clock before the epoch.
pub open spec fn stamp_of(reading: Option<u64>) -> i64 {
    match reading {
        Some(secs) => secs as i64,
        None => 0,
    }
}

impl AuditEvent {
    /// An event for a call of `tool` on the symbol `name` at `line` of `file`,
    /// stamped with the clock reading `reading`.
    pub fn at(reading: Option<u64>, tool: &str, name: &str, file: &str, line: u32) -> (event: AuditEvent)
        ensures
            event.ts == stamp_of(reading),
            event.tool@ == tool@,
            event.name@ == name@,
            event.file@ == file@,
            event.line == line,
    {
        let ts: i64 = match reading {
            Some(secs) => secs as i64,
            None => 0,
        };
        AuditEvent {
            ts,
            tool: String::from_str(tool),
            name: String::from_str(name),
            file: String::from_str(file),
            line,
        }
    }

    /// An event stamped with the current time (whole seconds since the epoch;
    /// zero when the clock reads before the epoch): `at` applied to a reading
    /// of the clock.
    pub fn now(tool: &str, name: &str, file: &str, line: u32) -> (event: AuditEvent)
        ensures
            event.tool@ == tool@,
            event.name@ == name@,
            event.file@ == file@,
            event.line == line,
    {
        let reading = unix_time_secs();
        AuditEvent::at(reading, tool, name, file, line)
    }
}

/// What reading the audit log gave: the events, and how many non-blank lines
/// could not be read as an event.
#[derive(Debug, Clone, PartialEq, Eq, Default)]
pub struct ReadEventsOutcome {
    pub events: Vec<AuditEvent>,
    pub corrupted_lines: usize,
}

/// The events among the non-blank lines of a log, in order.
pub open spec fn read_events_of(lines: Seq<Option<AuditEvent>>) -> Seq<AuditEvent>
    decreases lines.len(),
{
    if lines.len() == 0 {
        Seq::empty()
    } else {
        match lines.last() {
            Some(e) => read_events_of(lines.drop_last()).push(e),
            None => read_events_of(lines.drop_last()),
        }
    }
}

/// How many of the non-blank lines of a log were not events.
pub open spec fn corrupted_count(lines: Seq<Option<AuditEvent>>) -> nat
    decreases lines.len(),
{
    if lines.len() == 0 {
        0
    } else {
        corrupted_count(lines.drop_last()) + if lines.last() is None {
            1nat
        } else {
            0nat
        }
    }
}

/// Gathers the outcome of reading a log from its non-blank lines, each given
/// as the event it parsed to, or `None` when it did not parse.
pub fn collect_events(lines: Vec<Option<AuditEvent>>) -> (outcome: ReadEventsOutcome)
    ensures
        outcome.events@ == read_events_of(lines@),
        outcome.corrupted_lines == corrupted_count(lines@),
        outcome.events@.len() + outcome.corrupted_lines == lines@.len(),
{
    let mut events: Vec<AuditEvent> = Vec::new();
    let mut corrupted_lines: usize = 0;
    let mut i: usize = 0;
    let ghost all = lines@;
    let ghost n = lines.len();
    let mut rest = lines;
    proof {
        assert(all.take(0) =~= Seq::<Option<AuditEvent>>::empty());
    }
    while rest.len() > 0
        invariant
            all.len() == i + rest@.len(),
            all.len() <= usize::MAX,
            all == lines@,
            rest@ == all.skip(i as int),
            events@ == read_events_of(all.take(i as int)),
            corrupted_lines == corrupted_count(all.take(i as int)),
            events@.len() + corrupted_lines == i,
        decreases rest@.len(),
    {
        let line = rest.remove(0);
        proof {
            assert(all.take(i + 1).drop_last() =~= all.take(i as int));
            assert(line == all[i as int]);
            assert(all.take(i + 1).last() == all[i as int]);
            assert(rest@ =~= all.skip(i + 1));
        }
        match line {
            Some(e) => events.push(e),
            None => corrupted_lines = corrupted_lines + 1,
        }
        i = i + 1;
    }
    proof {
        assert(all.take(i as int) =~= all);
    }
    ReadEventsOutcome { events, corrupted_lines }
}

/// Some event records `tool` being called on `name` in `file`.
pub open spec fn queried(events: Seq<AuditEvent>, tool: Seq<char>, name: Seq<char>, file: Seq<char>) -> bool {
    exists|i: int|
        0 <= i < events.len() && #[trigger] events[i].tool@ == tool && events[i].name@ == name
            && events[i].file@ == file
}

/// A call counts for the tool it records and no other: adding an event of
/// another tool changes no answer about `tool`, and adding an event answers
/// yes for its own tool, name and file; with no events nothing was queried.
pub proof fn lemma_queried_by_tool(events: Seq<AuditEvent>, e: AuditEvent, tool: Seq<char>, name: Seq<char>, file: Seq<char>)
    ensures
        e.tool@ != tool ==> queried(events.push(e), tool, name, file) == queried(events, tool, name, file),
        queried(events.push(e), e.tool@, e.name@, e.file@),
        !queried(Seq::<AuditEvent>::empty(), tool, name, file),
{
    let s = events.push(e);
    assert(s[events.len() as int] == e);
    if queried(s, tool, name, file) && e.tool@ != tool {
        let i = choose|i: int| 0 <= i < s.len() && #[trigger] s[i].tool@ == tool && s[i].name@ == name && s[i].file@ == file;
        assert(i < events.len());
        assert(events[i] == s[i]);
    }
    if queried(events, tool, name, file) {
        let i = choose|i: int|
            0 <= i < events.len() && #[trigger] events[i].tool@ == tool && events[i].name@ == name && events[i].file@ == file;
        assert(s[i] == events[i]);
    }
}

/// Whether `tool` was called on `name` in `file` is read off the events
/// alone: yes exactly when one of them records that very tool, name and file.
pub proof fn lemma_queried_needs_that_tool(events: Seq<AuditEvent>, tool: Seq<char>, name: Seq<char>, file: Seq<char>)
    ensures
        queried(events, tool, name, file) <==> exists|i: int|
            0 <= i < events.len() && events[i].tool@ == tool && events[i].name@ == name && #[trigger] events[i].file@ == file,
    decreases events.len(),
{
    if events.len() > 0 {
        let init = events.drop_last();
        lemma_queried_needs_that_tool(init, tool, name, file);
        lemma_queried_by_tool(init, events.last(), tool, name, file);
        assert(init.push(events.last()) =~= events);
        if exists|i: int| 0 <= i < events.len() && events[i].tool@ == tool && events[i].name@ == name && #[trigger] events[i].file@ == file {
            let i = choose|i: int| 0 <= i < events.len() && events[i].tool@ == tool && events[i].name@ == name && #[trigger] events[i].file@ == file;
            if i < init.len() {
                assert(init[i] == events[i]);
            }
        }
        if exists|i: int| 0 <= i < init.len() && init[i].tool@ == tool && init[i].name@ == name && #[trigger] init[i].file@ == file {
            let i = choose|i: int| 0 <= i < init.len() && init[i].tool@ == tool && init[i].name@ == name && #[trigger] init[i].file@ == file;
            assert(events[i] == init[i]);
        }
    } else {
        lemma_queried_by_tool(events, events.last(), tool, name, file);
        assert(events =~= Seq::<AuditEvent>::empty());
    }
}

fn was_queried(events: &[AuditEvent], tool: &str, name: &str, file: &str) -> (q: bool)
    ensures
        q == queried(events@, tool@, name@, file@),
{
    let tool_s = String::from_str(tool);
    let name_s = String::from_str(name);
    let file_s = String::from_str(file);
    let mut i: usize = 0;
    while i < events.len()
        invariant
            i <= events@.len(),
            tool_s@ == tool@,
            name_s@ == name@,
            file_s@ == file@,
            forall|j: int|
                0 <= j < i ==> !(#[trigger] events@[j].tool@ == tool@ && events@[j].name@ == name@
                    && events@[j].file@ == file@),
        decreases events@.len() - i,
    {
        let e = &events[i];
        if e.tool == tool_s && e.name == name_s && e.file == file_s {
            return true;
        }
        i = i + 1;
    }
    false
}

/// How well a changed symbol's blast radius was looked at.
#[derive(Debug, Clone, PartialEq, Eq)]
pub struct SymbolCoverage {
    pub name: String,
    pub file: String,
    pub line: u32,
    pub impact_checked: bool,
    pub affected_total: usize,
    pub affected_inspected: usize,
    pub uninspected: Vec<(String, String, u32)>,
}

/// The affected nodes that no `get_symbol` call looked at, in order.
pub open spec fn uninspected_nodes(events: Seq<AuditEvent>, affected: Seq<ImpactNode>) -> Seq<ImpactNode>
    decreases affected.len(),
{
    if affected.len() == 0 {
        Seq::empty()
    } else {
        let rest = uninspected_nodes(events, affected.drop_last());
        let n = affected.last();
        if queried(events, "get_symbol"@, n.name@, n.file@) {
            rest
        } else {
            rest.push(n)
        }
    }
}

/// Only `get_symbol` calls inspect an affected node: adding an event of any
/// other tool leaves the uninspected nodes as they are.
pub proof fn lemma_only_get_symbol_inspects(events: Seq<AuditEvent>, e: AuditEvent, affected: Seq<ImpactNode>)
    requires
        e.tool@ != "get_symbol"@,
    ensures
        uninspected_nodes(events.push(e), affected) == uninspected_nodes(events, affected),
    decreases affected.len(),
{
    if affected.len() > 0 {
        lemma_only_get_symbol_inspects(events, e, affected.drop_last());
        let n = affected.last();
        lemma_queried_by_tool(events, e, "get_symbol"@, n.name@, n.file@);
    }
}

/// The uninspected nodes are exactly the affected nodes, in order, for which
/// no event records a `get_symbol` call on their name and file.
pub proof fn lemma_uninspected_are_the_unlooked(events: Seq<AuditEvent>, affected: Seq<ImpactNode>)
    ensures
        forall|k: int|
            0 <= k < affected.len() && !(exists|i: int|
                0 <= i < events.len() && events[i].tool@ == "get_symbol"@ && events[i].name@ == affected[k].name@
                    && #[trigger] events[i].file@ == affected[k].file@) ==> uninspected_nodes(events, affected).contains(
                #[trigger] affected[k],
            ),
        forall|x: int|
            0 <= x < uninspected_nodes(events, affected).len() ==> affected.contains(
                #[trigger] uninspected_nodes(events, affected)[x],
            ) && !(exists|i: int|
                0 <= i < events.len() && events[i].tool@ == "get_symbol"@ && events[i].name@ == uninspected_nodes(
                    events,
                    affected,
                )[x].name@ && #[trigger] events[i].file@ == uninspected_nodes(events, affected)[x].file@),
    decreases affected.len(),
{
    if affected.len() > 0 {
        let init = affected.drop_last();
        let n = affected.last();
        lemma_uninspected_are_the_unlooked(events, init);
        lemma_queried_needs_that_tool(events, "get_symbol"@, n.name@, n.file@);
        let rest = uninspected_nodes(events, init);
        let u = uninspected_nodes(events, affected);
        assert forall|k: int|
            0 <= k < affected.len() && !(exists|i: int|
                0 <= i < events.len() && events[i].tool@ == "get_symbol"@ && events[i].name@ == affected[k].name@
                    && #[trigger] events[i].file@ == affected[k].file@) implies u.contains(#[trigger] affected[k]) by {
            if k < init.len() {
                assert(init[k] == affected[k]);
                let x = choose|x: int| 0 <= x < rest.len() && rest[x] == init[k];
                if !queried(events, "get_symbol"@, n.name@, n.file@) {
                    assert(u == rest.push(n));
                    assert(u[x] == rest[x]);
                }
            } else {
                assert(affected[k] == n);
                assert(u == rest.push(n));
                assert(u[rest.len() as int] == n);
            }
        }
        assert forall|x: int| 0 <= x < u.len() implies affected.contains(#[trigger] u[x]) && !(exists|i: int|
            0 <= i < events.len() && events[i].tool@ == "get_symbol"@ && events[i].name@ == u[x].name@
                && #[trigger] events[i].file@ == u[x].file@) by {
            if x < rest.len() {
                assert(u[x] == rest[x]);
                let j = choose|j: int| 0 <= j < init.len() && init[j] == rest[x];
                assert(affected[j] == init[j]);
            } else {
                assert(u == rest.push(n));
                assert(u[x] == n);
                assert(affected[affected.len() - 1] == n);
            }
        }
    }
}

/// Coverage of a changed symbol: whether `impact` was called on it (matched on
/// name and file), and which affected nodes were inspected with `get_symbol`.
pub fn coverage_for_changed_symbol(
    name: &str,
    file: &str,
    line: u32,
    affected: &[ImpactNode],
    events: &[AuditEvent],
) -> (c: SymbolCoverage)
    ensures
        c.name@ == name@,
        c.file@ == file@,
        c.line == line,
        c.impact_checked == queried(events@, "impact"@, name@, file@),
        c.affected_total == affected@.len(),
        c.affected_inspected + c.uninspected@.len() == affected@.len(),
        c.uninspected@.len() == uninspected_nodes(events@, affected@).len(),
        forall|i: int|
            0 <= i < c.uninspected@.len() ==> {
                let n = uninspected_nodes(events@, affected@)[i];
                &&& (#[trigger] c.uninspected@[i]).0@ == n.name@
                &&& c.uninspected@[i].1@ == n.file@
                &&& c.uninspected@[i].2 == n.line
            },
{
    let impact_checked = was_queried(events, "impact", name, file);
    let mut affected_inspected: usize = 0;
    let mut uninspected: Vec<(String, String, u32)> = Vec::new();
    let mut i: usize = 0;
    while i < affected.len()
        invariant
            i <= affected@.len(),
            affected_inspected + uninspected@.len() == i,
            uninspected@.len() == uninspected_nodes(events@, affected@.take(i as int)).len(),
            forall|k: int|
                0 <= k < uninspected@.len() ==> {
                    let n = uninspected_nodes(events@, affected@.take(i as int))[k];
                    &&& (#[trigger] uninspected@[k]).0@ == n.name@
                    &&& uninspected@[k].1@ == n.file@
                    &&& uninspected@[k].2 == n.line
                },
        decreases affected@.len() - i,
    {
        let node = &affected[i];
        proof {
            assert(affected@.take(i + 1).drop_last() =~= affected@.take(i as int));
            assert(affected@.take(i + 1).last() == affected@[i as int]);
        }
        if was_queried(events, "get_symbol", node.name.as_str(), node.file.as_str()) {
            affected_inspected = affected_inspected + 1;
        } else {
            uninspected.push((node.name.clone(), node.file.clone(), node.line));
        }
        i = i + 1;
    }
    proof {
        assert(affected@.take(affected@.len() as int) =~= affected@);
    }
    SymbolCoverage {
        name: String::from_str(name),
        file: String::from_str(file),
        line,
        impact_checked,
        affected_total: affected.len(),
        affected_inspected,
        uninspected,
    }
}

} // verus!
