use vstd::prelude::*;

use crate::budget::{
    estimate_node_tokens, estimate_symbol_tokens, node_render_len, signature_text, symbol_render_len, token_estimate,
    TokenBudget,
};
use crate::lang::registry::{ascii_lower, lemma_ascii_lower_idempotent, to_ascii_lowercase};
use crate::order::{is_rank_sort, rank_key_view, stable_sort_by_rank, stably_ranks, RankKey};
use crate::text::{chars_eq, chars_of, chars_starts_with, find_chars, first_occurrence, occurs_at, str_eq, string_opt};

verus! {

/// A definition as the index reports it.
#[derive(Debug, PartialEq, Eq)]
pub struct SymbolInfo {
    pub name: String,
    pub file: String,
    pub line: u32,
    pub kind: String,
    pub signature: Option<String>,
    pub is_public: bool,
}

impl Clone for SymbolInfo {
    fn clone(&self) -> (c: Self)
        ensures
            c == *self,
    {
        SymbolInfo {
            name: self.name.clone(),
            file: self.file.clone(),
            line: self.line,
            kind: self.kind.clone(),
            signature: match &self.signature {
                Some(s) => Some(s.clone()),
                None => None,
            },
            is_public: self.is_public,
        }
    }
}

/// A definition that calls the queried symbol.
#[derive(Debug, Clone, PartialEq, Eq)]
pub struct CallerInfo {
    pub name: String,
    pub file: String,
    pub line: u32,
    pub resolution: String,
}

/// A name the queried symbol calls, and the file it resolved to, if any.
#[derive(Debug, Clone, PartialEq, Eq)]
pub struct CalleeInfo {
    pub name: String,
    pub file: Option<String>,
    pub resolution: String,
}

/// One matched definition with its callers and callees, and how many of
/// them a token budget left out.
#[derive(Debug, Clone, PartialEq, Eq)]
pub struct SymbolResult {
    pub symbol: SymbolInfo,
    pub callers: Vec<CallerInfo>,
    pub callees: Vec<CalleeInfo>,
    pub truncated: bool,
    pub truncated_count: usize,
}

/// A definition reached by walking callers backwards from a target, with the
/// number of hops it lies away.
#[derive(Debug, Clone, PartialEq, Eq)]
pub struct ImpactNode {
    pub name: String,
    pub file: String,
    pub line: u32,
    pub resolution: String,
    pub owner: Option<String>,
    pub lang: String,
    pub depth: usize,
}

/// The symbols a change to one target may affect, walking callers back.
#[derive(Debug, Clone, PartialEq, Eq)]
pub struct ImpactResult {
    pub target: SymbolInfo,
    pub affected: Vec<ImpactNode>,
    pub truncated: bool,
    pub truncated_count: usize,
    pub max_depth_reached: usize,
}

/// A symbol whose name matched a search.
#[derive(Debug, PartialEq, Eq)]
pub struct FindMatch {
    pub name: String,
    pub file: String,
    pub line: u32,
    pub kind: String,
    pub signature: Option<String>,
    pub is_public: bool,
}

impl Clone for FindMatch {
    fn clone(&self) -> (c: Self)
        ensures
            c == *self,
    {
        FindMatch {
            name: self.name.clone(),
            file: self.file.clone(),
            line: self.line,
            kind: self.kind.clone(),
            signature: match &self.signature {
                Some(s) => Some(s.clone()),
                None => None,
            },
            is_public: self.is_public,
        }
    }
}

/// The matches of a name search, with how many matched in all and how many
/// a limit or budget left out.
#[derive(Debug, Clone, PartialEq, Eq)]
pub struct FindResult {
    pub matches: Vec<FindMatch>,
    pub total_matches: usize,
    pub truncated: bool,
    pub truncated_count: usize,
}

/// How many hops back from its target an impact walk goes at most.
pub const MAX_IMPACT_DEPTH: usize = 10;

/// A recorded call whose callee resolved to a file: the callee's file and
/// name, and the definition that makes the call.
#[derive(Debug, Clone, PartialEq, Eq)]
pub struct CallEdge {
    pub callee_file: String,
    pub callee_name: String,
    pub caller_name: String,
    pub caller_file: String,
    pub caller_line: u32,
    pub resolution: String,
    pub caller_owner: Option<String>,
    pub caller_lang: String,
}

/// What tells two definitions apart: name, file and line.
pub type SymbolKey = (Seq<char>, Seq<char>, u32);

/// The definition that makes the call `e`.
pub open spec fn caller_key(e: CallEdge) -> SymbolKey {
    (e.caller_name@, e.caller_file@, e.caller_line)
}

/// The key of a definition.
pub open spec fn symbol_key(s: SymbolInfo) -> SymbolKey {
    (s.name@, s.file@, s.line)
}

/// Whether the call `e` is a call of the definition named `name` in `file`.
pub open spec fn calls_into(e: CallEdge, file: Seq<char>, name: Seq<char>) -> bool {
    e.callee_file@ == file && e.callee_name@ == name
}

/// The callers found so far, each given as the index of the edge that found
/// it and its depth.
pub open spec fn found_keys(g: Seq<CallEdge>, found: Seq<(int, nat)>) -> Seq<SymbolKey> {
    found.map_values(|f: (int, nat)| caller_key(g[f.0]))
}

/// The definitions a walk from `t` has met once `found` is found: the
/// target and every caller found.
pub open spec fn seen_keys(g: Seq<CallEdge>, t: SymbolInfo, found: Seq<(int, nat)>) -> Seq<SymbolKey> {
    seq![symbol_key(t)] + found_keys(g, found)
}

/// The callers of the definition named `name` in `file` that the first `k`
/// edges give, at `depth`, leaving out those in `seen` and repeats.
pub open spec fn scan_callers(
    g: Seq<CallEdge>,
    file: Seq<char>,
    name: Seq<char>,
    depth: nat,
    k: int,
    seen: Seq<SymbolKey>,
) -> Seq<(int, nat)>
    decreases k,
{
    if k <= 0 || k > g.len() {
        Seq::empty()
    } else {
        let prev = scan_callers(g, file, name, depth, k - 1, seen);
        if calls_into(g[k - 1], file, name) && !(seen + found_keys(g, prev)).contains(caller_key(g[k - 1])) {
            prev.push((k - 1, depth))
        } else {
            prev
        }
    }
}

/// The new callers, at `depth`, of the first `i` definitions of `layer`, in
/// order.
pub open spec fn expand_layer(g: Seq<CallEdge>, layer: Seq<(int, nat)>, depth: nat, i: int, seen: Seq<SymbolKey>) -> Seq<(int, nat)>
    decreases i,
{
    if i <= 0 || i > layer.len() {
        Seq::empty()
    } else {
        let prev = expand_layer(g, layer, depth, i - 1, seen);
        let e = g[layer[i - 1].0];
        prev + scan_callers(g, e.caller_file@, e.caller_name@, depth, g.len() as int, seen + found_keys(g, prev))
    }
}

/// The callers at `depth` and beyond, walking back from `layer`, the
/// callers found at the depth before.
pub open spec fn walk_layers(g: Seq<CallEdge>, layer: Seq<(int, nat)>, depth: nat, seen: Seq<SymbolKey>) -> Seq<(int, nat)>
    decreases MAX_IMPACT_DEPTH + 1 - depth,
{
    if depth > MAX_IMPACT_DEPTH || layer.len() == 0 {
        Seq::empty()
    } else {
        let next = expand_layer(g, layer, depth, layer.len() as int, seen);
        next + walk_layers(g, next, depth + 1, seen + found_keys(g, next))
    }
}

/// Every definition a change to `t` may reach, in breadth-first order: its
/// callers at depth one, their callers at depth two, and so on up to
/// `MAX_IMPACT_DEPTH`, each definition once, at the depth it is first met.
pub open spec fn impact_order(g: Seq<CallEdge>, t: SymbolInfo) -> Seq<(int, nat)> {
    let first = scan_callers(g, t.file@, t.name@, 1, g.len() as int, seq![symbol_key(t)]);
    first + walk_layers(g, first, 2, seen_keys(g, t, first))
}

/// The token estimate of the affected node an edge's caller becomes.
pub open spec fn node_cost(e: CallEdge) -> nat {
    token_estimate(node_render_len(e.caller_name@, e.caller_file@, e.caller_line, e.resolution@))
}

/// The token estimates of the nodes of a walk, in order.
pub open spec fn order_costs(g: Seq<CallEdge>, order: Seq<(int, nat)>) -> Seq<nat> {
    order.map_values(|f: (int, nat)| node_cost(g[f.0]))
}

/// How many of the leading items fit one after another in `rem` tokens.
pub open spec fn fit_count(costs: Seq<nat>, rem: nat) -> nat
    decreases costs.len(),
{
    if costs.len() == 0 || costs[0] > rem {
        0
    } else {
        1 + fit_count(costs.drop_first(), (rem - costs[0]) as nat)
    }
}

/// What is left of `rem` tokens once the leading items that fit are taken.
pub open spec fn fit_rest(costs: Seq<nat>, rem: nat) -> nat
    decreases costs.len(),
{
    if costs.len() == 0 || costs[0] > rem {
        rem
    } else {
        fit_rest(costs.drop_first(), (rem - costs[0]) as nat)
    }
}

/// An affected node reports the caller of edge `e`, at `depth`.
pub open spec fn node_of_edge(n: ImpactNode, e: CallEdge, depth: nat) -> bool {
    &&& n.name@ == e.caller_name@
    &&& n.file@ == e.caller_file@
    &&& n.line == e.caller_line
    &&& n.resolution@ == e.resolution@
    &&& string_opt(n.owner) == string_opt(e.caller_owner)
    &&& n.lang@ == e.caller_lang@
    &&& n.depth == depth
}

/// `r` is the impact of `t` over the calls `g` with `rem` tokens to spend:
/// the leading nodes of the walk that fit, and how many did not.
pub open spec fn is_impact_of(r: ImpactResult, g: Seq<CallEdge>, t: SymbolInfo, rem: nat) -> bool {
    let order = impact_order(g, t);
    let n = fit_count(order_costs(g, order), rem);
    &&& r.target == t
    &&& r.affected@.len() == n
    &&& forall|m: int| 0 <= m < n ==> node_of_edge(#[trigger] r.affected@[m], g[order[m].0], order[m].1)
    &&& r.truncated_count == order.len() - n
    &&& r.truncated == (n < order.len())
    &&& r.max_depth_reached == (if n == 0 {
        0
    } else {
        order[n - 1].1
    })
}

/// The tokens left for target `k` when the targets before it spent theirs
/// in turn, starting from `rem`.
pub open spec fn impact_remaining(g: Seq<CallEdge>, targets: Seq<SymbolInfo>, rem: nat, k: int) -> nat
    decreases k,
{
    if k <= 0 {
        rem
    } else {
        let before = impact_remaining(g, targets, rem, k - 1);
        fit_rest(order_costs(g, impact_order(g, targets[k - 1])), before)
    }
}

/// Every call's caller fields are short enough for their token estimate to
/// be computed in a `usize`.
pub open spec fn edges_fit(g: Seq<CallEdge>) -> bool {
    forall|j: int|
        0 <= j < g.len() ==> (#[trigger] g[j]).caller_name@.len() + g[j].caller_file@.len() + g[j].resolution@.len()
            + 55 <= usize::MAX
}

/// The walk's findings as plain numbers.
pub open spec fn found_view(all: Seq<(usize, usize)>) -> Seq<(int, nat)> {
    all.map_values(|f: (usize, usize)| (f.0 as int, f.1 as nat))
}

proof fn lemma_found_keys_concat(g: Seq<CallEdge>, a: Seq<(int, nat)>, b: Seq<(int, nat)>)
    ensures
        found_keys(g, a + b) == found_keys(g, a) + found_keys(g, b),
{
    assert(found_keys(g, a + b) =~= found_keys(g, a) + found_keys(g, b));
}

/// Whether the caller of edge `k` is the target or was found already.
fn caller_seen(g: &Vec<CallEdge>, t: &SymbolInfo, all: &Vec<(usize, usize)>, k: usize) -> (b: bool)
    requires
        k < g@.len(),
        forall|i: int| 0 <= i < all@.len() ==> (#[trigger] all@[i]).0 < g@.len(),
    ensures
        b == seen_keys(g@, *t, found_view(all@)).contains(caller_key(g@[k as int])),
{
    let e = &g[k];
    let ghost key = caller_key(g@[k as int]);
    let ghost seen = seen_keys(g@, *t, found_view(all@));
    assert(seen[0] == symbol_key(*t));
    if str_eq(&e.caller_name, &t.name) && str_eq(&e.caller_file, &t.file) && e.caller_line == t.line {
        assert(seen[0] == key);
        return true;
    }
    let ghost fk = found_keys(g@, found_view(all@));
    assert(seen =~= seq![symbol_key(*t)] + fk);
    let mut i: usize = 0;
    while i < all.len()
        invariant
            k < g@.len(),
            e == &g@[k as int],
            key == caller_key(g@[k as int]),
            fk == found_keys(g@, found_view(all@)),
            seen == seq![symbol_key(*t)] + fk,
            fk.len() == all@.len(),
            i <= all@.len(),
            forall|x: int| 0 <= x < all@.len() ==> (#[trigger] all@[x]).0 < g@.len(),
            forall|x: int| 0 <= x < i ==> #[trigger] fk[x] != key,
        decreases all@.len() - i,
    {
        let f = &g[all[i].0];
        assert(fk[i as int] == caller_key(g@[all@[i as int].0 as int]));
        if str_eq(&f.caller_name, &e.caller_name) && str_eq(&f.caller_file, &e.caller_file) && f.caller_line
            == e.caller_line {
            assert(seen[i + 1] == fk[i as int]);
            return true;
        }
        i = i + 1;
    }
    assert(!seen.contains(key)) by {
        assert forall|x: int| 0 <= x < seen.len() implies seen[x] != key by {
            if x > 0 {
                assert(seen[x] == fk[x - 1]);
            }
        }
    }
    false
}

/// Appends to `all` the callers, at `depth`, of the definition named `name`
/// in `file` that are neither the target nor found already.
fn scan_into(g: &Vec<CallEdge>, file: &str, name: &str, depth: usize, t: &SymbolInfo, all: &mut Vec<(usize, usize)>)
    requires
        forall|i: int| 0 <= i < old(all)@.len() ==> (#[trigger] old(all)@[i]).0 < g@.len(),
    ensures
        found_view(final(all)@) == found_view(old(all)@) + scan_callers(
            g@,
            file@,
            name@,
            depth as nat,
            g@.len() as int,
            seen_keys(g@, *t, found_view(old(all)@)),
        ),
        forall|i: int| 0 <= i < final(all)@.len() ==> (#[trigger] final(all)@[i]).0 < g@.len(),
{
    let ghost base = found_view(all@);
    let ghost seen = seen_keys(g@, *t, base);
    let mut k: usize = 0;
    assert(found_view(all@) =~= base + Seq::<(int, nat)>::empty());
    while k < g.len()
        invariant
            k <= g@.len(),
            seen == seen_keys(g@, *t, base),
            found_view(all@) == base + scan_callers(g@, file@, name@, depth as nat, k as int, seen),
            forall|i: int| 0 <= i < all@.len() ==> (#[trigger] all@[i]).0 < g@.len(),
        decreases g@.len() - k,
    {
        let ghost prev = scan_callers(g@, file@, name@, depth as nat, k as int, seen);
        proof {
            lemma_found_keys_concat(g@, base, prev);
            assert(seen_keys(g@, *t, found_view(all@)) =~= seen + found_keys(g@, prev));
        }
        let ghost before = found_view(all@);
        let hit = str_eq(&g[k].callee_file, file) && str_eq(&g[k].callee_name, name) && !caller_seen(g, t, all, k);
        if hit {
            all.push((k, depth));
            assert(scan_callers(g@, file@, name@, depth as nat, k + 1, seen) == prev.push((k as int, depth as nat)));
            assert(found_view(all@) =~= before.push((k as int, depth as nat)));
            assert(found_view(all@) =~= base + prev.push((k as int, depth as nat)));
        } else {
            assert(scan_callers(g@, file@, name@, depth as nat, k + 1, seen) == prev);
        }
        k = k + 1;
    }
}

/// The walk from `t`: every caller it reaches, as the edge that found it and
/// its depth, in breadth-first order.
fn walk_order(g: &Vec<CallEdge>, t: &SymbolInfo) -> (all: Vec<(usize, usize)>)
    ensures
        found_view(all@) == impact_order(g@, *t),
        forall|i: int| 0 <= i < all@.len() ==> (#[trigger] all@[i]).0 < g@.len(),
{
    let mut all: Vec<(usize, usize)> = Vec::new();
    proof {
        assert(found_view(all@) =~= Seq::<(int, nat)>::empty());
        assert(seen_keys(g@, *t, found_view(all@)) =~= seq![symbol_key(*t)]);
    }
    scan_into(g, t.file.as_str(), t.name.as_str(), 1, t, &mut all);
    proof {
        assert(found_view(all@) =~= found_view(all@).subrange(0, all@.len() as int));
    }
    let mut start: usize = 0;
    let mut end: usize = all.len();
    let mut depth: usize = 2;
    while depth <= MAX_IMPACT_DEPTH && start < end
        invariant
            2 <= depth <= MAX_IMPACT_DEPTH + 1,
            start <= end,
            end == all@.len(),
            forall|i: int| 0 <= i < all@.len() ==> (#[trigger] all@[i]).0 < g@.len(),
            impact_order(g@, *t) == found_view(all@) + walk_layers(
                g@,
                found_view(all@).subrange(start as int, end as int),
                depth as nat,
                seen_keys(g@, *t, found_view(all@)),
            ),
        decreases MAX_IMPACT_DEPTH + 1 - depth,
    {
        let ghost base = found_view(all@);
        let ghost layer = base.subrange(start as int, end as int);
        let ghost seen = seen_keys(g@, *t, base);
        let mut i: usize = start;
        proof {
            assert(found_view(all@) =~= base + expand_layer(g@, layer, depth as nat, 0, seen));
        }
        while i < end
            invariant
                start <= i <= end,
                end == base.len(),
                end <= all@.len(),
                layer == base.subrange(start as int, end as int),
                seen == seen_keys(g@, *t, base),
                found_view(all@) == base + expand_layer(g@, layer, depth as nat, i - start, seen),
                forall|x: int| 0 <= x < all@.len() ==> (#[trigger] all@[x]).0 < g@.len(),
            decreases end - i,
        {
            let ghost prev = expand_layer(g@, layer, depth as nat, i - start, seen);
            assert(found_view(all@)[i as int] == base[i as int]);
            assert(found_view(all@)[i as int] == (all@[i as int].0 as int, all@[i as int].1 as nat));
            let j = all[i].0;
            assert(layer[i - start].0 == j);
            proof {
                lemma_found_keys_concat(g@, base, prev);
                assert(seen_keys(g@, *t, found_view(all@)) =~= seen + found_keys(g@, prev));
            }
            let e = &g[j];
            scan_into(g, e.caller_file.as_str(), e.caller_name.as_str(), depth, t, &mut all);
            proof {
                let sc = scan_callers(g@, e.caller_file@, e.caller_name@, depth as nat, g@.len() as int, seen + found_keys(g@, prev));
                assert(expand_layer(g@, layer, depth as nat, i - start + 1, seen) == prev + sc);
                assert(found_view(all@) =~= base + (prev + sc));
                assert(found_view(all@).len() == all@.len());
            }
            i = i + 1;
        }
        proof {
            let next = expand_layer(g@, layer, depth as nat, layer.len() as int, seen);
            assert(i - start == layer.len());
            lemma_found_keys_concat(g@, base, next);
            assert(seen_keys(g@, *t, found_view(all@)) =~= seen + found_keys(g@, next));
            assert(found_view(all@).subrange(end as int, all@.len() as int) =~= next);
        }
        start = end;
        end = all.len();
        depth = depth + 1;
    }
    proof {
        assert(found_view(all@) + Seq::<(int, nat)>::empty() =~= found_view(all@));
    }
    all
}

fn clone_opt(o: &Option<String>) -> (c: Option<String>)
    ensures
        c == *o,
{
    match o {
        Some(s) => Some(s.clone()),
        None => None,
    }
}

/// The node the caller of `e` becomes at `depth`.
fn node_from_edge(e: &CallEdge, depth: usize) -> (n: ImpactNode)
    ensures
        node_of_edge(n, *e, depth as nat),
{
    ImpactNode {
        name: e.caller_name.clone(),
        file: e.caller_file.clone(),
        line: e.caller_line,
        resolution: e.resolution.clone(),
        owner: clone_opt(&e.caller_owner),
        lang: e.caller_lang.clone(),
        depth,
    }
}

proof fn lemma_fit_step(costs: Seq<nat>, m: int, rem: nat)
    requires
        0 <= m < costs.len(),
    ensures
        costs.skip(m)[0] == costs[m],
        costs[m] <= rem ==> fit_count(costs.skip(m), rem) == 1 + fit_count(costs.skip(m + 1), (rem - costs[m]) as nat)
            && fit_rest(costs.skip(m), rem) == fit_rest(costs.skip(m + 1), (rem - costs[m]) as nat),
        costs[m] > rem ==> fit_count(costs.skip(m), rem) == 0 && fit_rest(costs.skip(m), rem) == rem,
{
    assert(costs.skip(m).drop_first() =~= costs.skip(m + 1));
}

/// The impact of `t` over the calls `g`, spending from `budget`: the nodes
/// of the walk, in order, while they fit.
fn impact_of(g: &Vec<CallEdge>, t: &SymbolInfo, budget: &mut TokenBudget) -> (r: ImpactResult)
    requires
        edges_fit(g@),
    ensures
        is_impact_of(r, g@, *t, old(budget).spec_remaining()),
        final(budget).spec_remaining() == fit_rest(order_costs(g@, impact_order(g@, *t)), old(budget).spec_remaining()),
{
    let order = walk_order(g, t);
    let ghost ov = found_view(order@);
    let ghost costs = order_costs(g@, ov);
    let ghost rem0 = budget.spec_remaining();
    let mut affected: Vec<ImpactNode> = Vec::new();
    let mut last_depth: usize = 0;
    let mut m: usize = 0;
    let mut open = true;
    proof {
        assert(costs.skip(0) =~= costs);
    }
    while open && m < order.len()
        invariant
            ov == found_view(order@),
            ov == impact_order(g@, *t),
            costs == order_costs(g@, ov),
            edges_fit(g@),
            forall|i: int| 0 <= i < order@.len() ==> (#[trigger] order@[i]).0 < g@.len(),
            m <= order@.len(),
            affected@.len() == m,
            fit_count(costs, rem0) == m + fit_count(costs.skip(m as int), budget.spec_remaining()),
            fit_rest(costs, rem0) == fit_rest(costs.skip(m as int), budget.spec_remaining()),
            !open ==> m < order@.len() && fit_count(costs.skip(m as int), budget.spec_remaining()) == 0
                && fit_rest(costs.skip(m as int), budget.spec_remaining()) == budget.spec_remaining(),
            forall|x: int| 0 <= x < m ==> node_of_edge(#[trigger] affected@[x], g@[ov[x].0], ov[x].1),
            last_depth == (if m == 0 {
                0
            } else {
                ov[m - 1].1
            }),
        decreases order@.len() - m, if open { 1int } else { 0int },
    {
        let (j, depth) = order[m];
        assert(ov[m as int] == (j as int, depth as nat));
        let e = &g[j];
        assert(e.caller_name@.len() + e.caller_file@.len() + e.resolution@.len() + 55 <= usize::MAX) by {
            assert(g@[j as int] == *e);
        }
        let cost = estimate_node_tokens(e.caller_name.as_str(), e.caller_file.as_str(), e.caller_line, e.resolution.as_str());
        assert(costs[m as int] == cost);
        let ghost rem = budget.spec_remaining();
        proof {
            lemma_fit_step(costs, m as int, rem);
        }
        if budget.try_consume(cost) {
            affected.push(node_from_edge(e, depth));
            last_depth = depth;
            m = m + 1;
        } else {
            open = false;
        }
    }
    proof {
        if open {
            assert(costs.skip(m as int) =~= Seq::<nat>::empty());
        }
    }
    let truncated_count = order.len() - m;
    ImpactResult {
        target: t.clone(),
        affected,
        truncated: m < order.len(),
        truncated_count,
        max_depth_reached: last_depth,
    }
}

/// The impact of each of `targets`, in order, over the calls `graph`: walking
/// callers back breadth-first from the target to `MAX_IMPACT_DEPTH` hops,
/// each definition once at the depth it is first met, and keeping the
/// leading nodes while their token estimates fit in `budget`, which the
/// targets spend in turn.
pub fn impact(targets: &Vec<SymbolInfo>, graph: &Vec<CallEdge>, budget: TokenBudget) -> (out: Vec<ImpactResult>)
    requires
        edges_fit(graph@),
    ensures
        out@.len() == targets@.len(),
        forall|i: int|
            0 <= i < out@.len() ==> is_impact_of(
                #[trigger] out@[i],
                graph@,
                targets@[i],
                impact_remaining(graph@, targets@, budget.spec_remaining(), i),
            ),
{
    let mut budget = budget;
    let ghost rem0 = budget.spec_remaining();
    let mut out: Vec<ImpactResult> = Vec::new();
    let mut k: usize = 0;
    while k < targets.len()
        invariant
            edges_fit(graph@),
            k <= targets@.len(),
            out@.len() == k,
            budget.spec_remaining() == impact_remaining(graph@, targets@, rem0, k as int),
            forall|i: int|
                0 <= i < k ==> is_impact_of(
                    #[trigger] out@[i],
                    graph@,
                    targets@[i],
                    impact_remaining(graph@, targets@, rem0, i),
                ),
        decreases targets@.len() - k,
    {
        let r = impact_of(graph, &targets[k], &mut budget);
        out.push(r);
        k = k + 1;
    }
    out
}

/// No key occurs twice in `keys`.
pub open spec fn no_dup_keys(keys: Seq<SymbolKey>) -> bool {
    forall|i: int, j: int| 0 <= i < j < keys.len() ==> keys[i] != keys[j]
}

proof fn lemma_found_keys_push(g: Seq<CallEdge>, a: Seq<(int, nat)>, x: (int, nat))
    ensures
        found_keys(g, a.push(x)) == found_keys(g, a).push(caller_key(g[x.0])),
{
    assert(found_keys(g, a.push(x)) =~= found_keys(g, a).push(caller_key(g[x.0])));
}

proof fn lemma_scan_fresh(g: Seq<CallEdge>, file: Seq<char>, name: Seq<char>, depth: nat, k: int, seen: Seq<SymbolKey>)
    requires
        no_dup_keys(seen),
    ensures
        no_dup_keys(seen + found_keys(g, scan_callers(g, file, name, depth, k, seen))),
        forall|i: int|
            0 <= i < scan_callers(g, file, name, depth, k, seen).len() ==> {
                let f = #[trigger] scan_callers(g, file, name, depth, k, seen)[i];
                &&& 0 <= f.0 < g.len()
                &&& f.1 == depth
                &&& calls_into(g[f.0], file, name)
            },
    decreases k,
{
    if k <= 0 || k > g.len() {
        assert(seen + found_keys(g, Seq::empty()) =~= seen);
    } else {
        let prev = scan_callers(g, file, name, depth, k - 1, seen);
        lemma_scan_fresh(g, file, name, depth, k - 1, seen);
        let key = caller_key(g[k - 1]);
        if calls_into(g[k - 1], file, name) && !(seen + found_keys(g, prev)).contains(key) {
            lemma_found_keys_push(g, prev, (k - 1, depth));
            let all = seen + found_keys(g, prev);
            assert(seen + found_keys(g, prev.push((k - 1, depth))) =~= all.push(key));
            assert forall|i: int, j: int| 0 <= i < j < all.push(key).len() implies all.push(key)[i] != all.push(key)[j] by {
                if j == all.len() {
                    assert(all[i] != key);
                }
            }
        }
    }
}

proof fn lemma_expand_fresh(g: Seq<CallEdge>, layer: Seq<(int, nat)>, depth: nat, i: int, seen: Seq<SymbolKey>)
    requires
        no_dup_keys(seen),
    ensures
        no_dup_keys(seen + found_keys(g, expand_layer(g, layer, depth, i, seen))),
        forall|x: int|
            0 <= x < expand_layer(g, layer, depth, i, seen).len() ==> {
                let f = #[trigger] expand_layer(g, layer, depth, i, seen)[x];
                0 <= f.0 < g.len() && f.1 == depth
            },
    decreases i,
{
    if i <= 0 || i > layer.len() {
        assert(seen + found_keys(g, Seq::empty()) =~= seen);
    } else {
        let prev = expand_layer(g, layer, depth, i - 1, seen);
        lemma_expand_fresh(g, layer, depth, i - 1, seen);
        let e = g[layer[i - 1].0];
        let seen2 = seen + found_keys(g, prev);
        let sc = scan_callers(g, e.caller_file@, e.caller_name@, depth, g.len() as int, seen2);
        lemma_scan_fresh(g, e.caller_file@, e.caller_name@, depth, g.len() as int, seen2);
        lemma_found_keys_concat(g, prev, sc);
        assert(seen + found_keys(g, prev + sc) =~= seen2 + found_keys(g, sc));
        assert forall|x: int| 0 <= x < (prev + sc).len() implies {
            let f = #[trigger] (prev + sc)[x];
            0 <= f.0 < g.len() && f.1 == depth
        } by {
            if x >= prev.len() {
                assert((prev + sc)[x] == sc[x - prev.len()]);
            }
        }
    }
}

proof fn lemma_walk_fresh(g: Seq<CallEdge>, layer: Seq<(int, nat)>, depth: nat, seen: Seq<SymbolKey>)
    requires
        no_dup_keys(seen),
    ensures
        no_dup_keys(seen + found_keys(g, walk_layers(g, layer, depth, seen))),
        forall|x: int|
            0 <= x < walk_layers(g, layer, depth, seen).len() ==> {
                let f = #[trigger] walk_layers(g, layer, depth, seen)[x];
                0 <= f.0 < g.len() && depth <= f.1 <= MAX_IMPACT_DEPTH
            },
        forall|x: int, y: int|
            0 <= x < y < walk_layers(g, layer, depth, seen).len() ==> walk_layers(g, layer, depth, seen)[x].1
                <= walk_layers(g, layer, depth, seen)[y].1,
    decreases MAX_IMPACT_DEPTH + 1 - depth,
{
    if depth > MAX_IMPACT_DEPTH || layer.len() == 0 {
        assert(seen + found_keys(g, Seq::empty()) =~= seen);
    } else {
        let next = expand_layer(g, layer, depth, layer.len() as int, seen);
        lemma_expand_fresh(g, layer, depth, layer.len() as int, seen);
        let seen2 = seen + found_keys(g, next);
        let rest = walk_layers(g, next, depth + 1, seen2);
        lemma_walk_fresh(g, next, depth + 1, seen2);
        lemma_found_keys_concat(g, next, rest);
        assert(seen + found_keys(g, next + rest) =~= seen2 + found_keys(g, rest));
        let w = next + rest;
        assert forall|x: int| 0 <= x < w.len() implies {
            let f = #[trigger] w[x];
            0 <= f.0 < g.len() && depth <= f.1 <= MAX_IMPACT_DEPTH
        } by {
            if x >= next.len() {
                assert(w[x] == rest[x - next.len()]);
            }
        }
        assert forall|x: int, y: int| 0 <= x < y < w.len() implies w[x].1 <= w[y].1 by {
            if x >= next.len() {
                assert(w[x] == rest[x - next.len()]);
                assert(w[y] == rest[y - next.len()]);
            } else if y >= next.len() {
                assert(w[y] == rest[y - next.len()]);
            }
        }
    }
}

/// A walk meets each definition once: no two affected nodes are the same
/// definition, and the target is never among them. Their depths run from
/// one to `MAX_IMPACT_DEPTH` and never go down, and the nodes at depth one
/// are the target's own callers.
pub proof fn lemma_impact_order_well_formed(g: Seq<CallEdge>, t: SymbolInfo)
    ensures
        no_dup_keys(seen_keys(g, t, impact_order(g, t))),
        forall|x: int|
            0 <= x < impact_order(g, t).len() ==> {
                let f = #[trigger] impact_order(g, t)[x];
                &&& 0 <= f.0 < g.len()
                &&& 1 <= f.1 <= MAX_IMPACT_DEPTH
                &&& f.1 == 1 ==> calls_into(g[f.0], t.file@, t.name@)
            },
        forall|x: int, y: int|
            0 <= x < y < impact_order(g, t).len() ==> impact_order(g, t)[x].1 <= impact_order(g, t)[y].1,
{
    let tk = seq![symbol_key(t)];
    let first = scan_callers(g, t.file@, t.name@, 1, g.len() as int, tk);
    lemma_scan_fresh(g, t.file@, t.name@, 1, g.len() as int, tk);
    let seen2 = seen_keys(g, t, first);
    let rest = walk_layers(g, first, 2, seen2);
    lemma_walk_fresh(g, first, 2, seen2);
    lemma_found_keys_concat(g, first, rest);
    assert(seen_keys(g, t, first + rest) =~= seen2 + found_keys(g, rest));
    let w = first + rest;
    assert forall|x: int| 0 <= x < w.len() implies {
        let f = #[trigger] w[x];
        &&& 0 <= f.0 < g.len()
        &&& 1 <= f.1 <= MAX_IMPACT_DEPTH
        &&& f.1 == 1 ==> calls_into(g[f.0], t.file@, t.name@)
    } by {
        if x >= first.len() {
            assert(w[x] == rest[x - first.len()]);
        }
    }
    assert forall|x: int, y: int| 0 <= x < y < w.len() implies w[x].1 <= w[y].1 by {
        if x >= first.len() {
            assert(w[x] == rest[x - first.len()]);
            assert(w[y] == rest[y - first.len()]);
        } else if y >= first.len() {
            assert(w[y] == rest[y - first.len()]);
        }
    }
}

proof fn lemma_fit_count_bound(costs: Seq<nat>, rem: nat)
    ensures
        fit_count(costs, rem) <= costs.len(),
    decreases costs.len(),
{
    if costs.len() > 0 && costs[0] <= rem {
        lemma_fit_count_bound(costs.drop_first(), (rem - costs[0]) as nat);
    }
}

/// The key of an affected node.
pub open spec fn node_key(n: ImpactNode) -> SymbolKey {
    (n.name@, n.file@, n.line)
}

/// What an impact result reports holds of every budget: no definition is
/// reported twice and the target is never reported; depths run from one to
/// `MAX_IMPACT_DEPTH` without going down; the nodes at depth one call the
/// target; the deepest depth reported is that of the last node; and the
/// nodes reported and those left out together make up the whole walk.
pub proof fn lemma_impact_result_well_formed(r: ImpactResult, g: Seq<CallEdge>, t: SymbolInfo, rem: nat)
    requires
        is_impact_of(r, g, t, rem),
    ensures
        forall|i: int, j: int|
            0 <= i < j < r.affected@.len() ==> node_key(r.affected@[i]) != node_key(r.affected@[j]),
        forall|i: int| 0 <= i < r.affected@.len() ==> node_key(#[trigger] r.affected@[i]) != symbol_key(t),
        forall|i: int|
            0 <= i < r.affected@.len() ==> 1 <= (#[trigger] r.affected@[i]).depth <= MAX_IMPACT_DEPTH,
        forall|i: int, j: int| 0 <= i < j < r.affected@.len() ==> r.affected@[i].depth <= r.affected@[j].depth,
        forall|i: int|
            0 <= i < r.affected@.len() && (#[trigger] r.affected@[i]).depth == 1 ==> exists|j: int|
                0 <= j < g.len() && calls_into(g[j], t.file@, t.name@) && caller_key(g[j]) == node_key(r.affected@[i]),
        r.max_depth_reached == (if r.affected@.len() == 0 {
            0
        } else {
            r.affected@[r.affected@.len() - 1].depth
        }),
        r.affected@.len() + r.truncated_count == impact_order(g, t).len(),
        r.truncated <==> r.truncated_count > 0,
{
    let order = impact_order(g, t);
    let n = fit_count(order_costs(g, order), rem);
    lemma_fit_count_bound(order_costs(g, order), rem);
    lemma_impact_order_well_formed(g, t);
    let keys = seen_keys(g, t, order);
    assert forall|i: int| 0 <= i < r.affected@.len() implies node_key(#[trigger] r.affected@[i]) == keys[i + 1] by {
        assert(node_of_edge(r.affected@[i], g[order[i].0], order[i].1));
    }
    assert forall|i: int, j: int| 0 <= i < j < r.affected@.len() implies node_key(r.affected@[i]) != node_key(
        r.affected@[j],
    ) by {
        assert(node_key(r.affected@[i]) == keys[i + 1]);
        assert(node_key(r.affected@[j]) == keys[j + 1]);
    }
    assert forall|i: int| 0 <= i < r.affected@.len() implies node_key(#[trigger] r.affected@[i]) != symbol_key(t) by {
        assert(keys[0] == symbol_key(t));
        assert(node_key(r.affected@[i]) == keys[i + 1]);
    }
    assert forall|i: int| 0 <= i < r.affected@.len() implies r.affected@[i].depth == order[i].1 by {
        assert(node_of_edge(r.affected@[i], g[order[i].0], order[i].1));
    }
    assert forall|i: int|
        0 <= i < r.affected@.len() && (#[trigger] r.affected@[i]).depth == 1 implies exists|j: int|
        0 <= j < g.len() && calls_into(g[j], t.file@, t.name@) && caller_key(g[j]) == node_key(r.affected@[i]) by {
        assert(node_of_edge(r.affected@[i], g[order[i].0], order[i].1));
        let j = order[i].0;
        assert(caller_key(g[j]) == node_key(r.affected@[i]));
    }
}

/// The call that found item `a` is a call of the definition found as item
/// `b`.
pub open spec fn calls_found(g: Seq<CallEdge>, a: (int, nat), b: (int, nat)) -> bool {
    calls_into(g[a.0], g[b.0].caller_file@, g[b.0].caller_name@)
}

/// From position `s` on, every item of `c` calls an earlier item one level
/// nearer the target.
pub open spec fn chained_from(g: Seq<CallEdge>, c: Seq<(int, nat)>, s: int) -> bool {
    forall|p: int|
        #![trigger c[p]]
        s <= p < c.len() ==> exists|q: int| 0 <= q < p && c[q].1 + 1 == c[p].1 && #[trigger] calls_found(g, c[p], c[q])
}

proof fn lemma_expand_calls_layer(g: Seq<CallEdge>, layer: Seq<(int, nat)>, depth: nat, i: int, seen: Seq<SymbolKey>, x: int)
    requires
        no_dup_keys(seen),
        0 <= x < expand_layer(g, layer, depth, i, seen).len(),
    ensures
        exists|q: int| 0 <= q < i && q < layer.len() && #[trigger] calls_found(g, expand_layer(g, layer, depth, i, seen)[x], layer[q]),
    decreases i,
{
    let prev = expand_layer(g, layer, depth, i - 1, seen);
    lemma_expand_fresh(g, layer, depth, i - 1, seen);
    let e = g[layer[i - 1].0];
    let seen2 = seen + found_keys(g, prev);
    let sc = scan_callers(g, e.caller_file@, e.caller_name@, depth, g.len() as int, seen2);
    lemma_scan_fresh(g, e.caller_file@, e.caller_name@, depth, g.len() as int, seen2);
    let w = prev + sc;
    assert(expand_layer(g, layer, depth, i, seen) == w);
    if x >= prev.len() {
        assert(w[x] == sc[x - prev.len()]);
        assert(calls_found(g, expand_layer(g, layer, depth, i, seen)[x], layer[i - 1]));
    } else {
        assert(w[x] == prev[x]);
        lemma_expand_calls_layer(g, layer, depth, i - 1, seen, x);
        let q = choose|q: int| 0 <= q < i - 1 && q < layer.len() && #[trigger] calls_found(g, prev[x], layer[q]);
        assert(calls_found(g, expand_layer(g, layer, depth, i, seen)[x], layer[q]));
    }
}

proof fn lemma_walk_chained(g: Seq<CallEdge>, layer: Seq<(int, nat)>, depth: nat, seen: Seq<SymbolKey>, p: int)
    requires
        no_dup_keys(seen),
        forall|q: int| 0 <= q < layer.len() ==> (#[trigger] layer[q]).1 + 1 == depth,
        layer.len() <= p < (layer + walk_layers(g, layer, depth, seen)).len(),
    ensures
        ({
            let c = layer + walk_layers(g, layer, depth, seen);
            exists|q: int| 0 <= q < p && c[q].1 + 1 == c[p].1 && #[trigger] calls_found(g, c[p], c[q])
        }),
    decreases MAX_IMPACT_DEPTH + 1 - depth,
{
    let w = walk_layers(g, layer, depth, seen);
    let c = layer + w;
    let next = expand_layer(g, layer, depth, layer.len() as int, seen);
    lemma_expand_fresh(g, layer, depth, layer.len() as int, seen);
    let seen2 = seen + found_keys(g, next);
    let rest = walk_layers(g, next, depth + 1, seen2);
    let c2 = next + rest;
    assert(w == c2);
    assert(c =~= layer + c2);
    let p2 = p - layer.len();
    assert(c[p] == c2[p2]);
    if p2 < next.len() {
        assert(c2[p2] == next[p2]);
        lemma_expand_calls_layer(g, layer, depth, layer.len() as int, seen, p2);
        let q = choose|q: int| 0 <= q < layer.len() && #[trigger] calls_found(g, next[p2], layer[q]);
        assert(c[q] == layer[q]);
        assert(calls_found(g, c[p], c[q]));
    } else {
        lemma_walk_chained(g, next, depth + 1, seen2, p2);
        let q2 = choose|q: int| 0 <= q < p2 && c2[q].1 + 1 == c2[p2].1 && #[trigger] calls_found(g, c2[p2], c2[q]);
        assert(c[q2 + layer.len()] == c2[q2]);
        assert(calls_found(g, c[p], c[q2 + layer.len()]));
    }
}

/// Every node a walk reaches beyond depth one calls a node found before it,
/// one hop nearer the target: the walk follows real calls back from the
/// target.
pub proof fn lemma_impact_order_chained(g: Seq<CallEdge>, t: SymbolInfo)
    ensures
        forall|p: int|
            #![trigger impact_order(g, t)[p]]
            0 <= p < impact_order(g, t).len() && impact_order(g, t)[p].1 > 1 ==> exists|q: int|
                0 <= q < p && impact_order(g, t)[q].1 + 1 == impact_order(g, t)[p].1 && #[trigger] calls_found(
                    g,
                    impact_order(g, t)[p],
                    impact_order(g, t)[q],
                ),
{
    let tk = seq![symbol_key(t)];
    let first = scan_callers(g, t.file@, t.name@, 1, g.len() as int, tk);
    lemma_scan_fresh(g, t.file@, t.name@, 1, g.len() as int, tk);
    let seen2 = seen_keys(g, t, first);
    let order = impact_order(g, t);
    assert(order == first + walk_layers(g, first, 2, seen2));
    assert forall|p: int| #![trigger order[p]] 0 <= p < order.len() && order[p].1 > 1 implies exists|q: int|
        0 <= q < p && order[q].1 + 1 == order[p].1 && #[trigger] calls_found(g, order[p], order[q]) by {
        if p < first.len() {
            assert(order[p] == first[p]);
        } else {
            lemma_walk_chained(g, first, 2, seen2, p);
        }
    }
}

/// The number of matches a search returns when the caller names no limit.
pub const DEFAULT_FIND_LIMIT: usize = 20;

/// Whether `name` holds `query` as a substring once ASCII letters are folded
/// to lower case.
pub open spec fn name_matches(name: Seq<char>, query: Seq<char>) -> bool {
    exists|i: int| occurs_at(ascii_lower(name), ascii_lower(query), i)
}

/// `a` and `b` are the same character, or the same ASCII letter in upper and
/// lower case.
pub open spec fn same_ignoring_case(a: char, b: char) -> bool {
    ||| a == b
    ||| 'A' <= a <= 'Z' && b as int == a as int + 32
    ||| 'a' <= a <= 'z' && a as int == b as int + 32
}

/// A query that is the name with some ASCII letters in the other case matches
/// the name.
pub proof fn lemma_case_variant_matches(name: Seq<char>, query: Seq<char>)
    requires
        query.len() == name.len(),
        forall|i: int| 0 <= i < name.len() ==> same_ignoring_case(#[trigger] name[i], query[i]),
    ensures
        name_matches(name, query),
{
    assert forall|i: int| 0 <= i < name.len() implies #[trigger] ascii_lower(name)[i] == ascii_lower(query)[i] by {
        let a = name[i];
        let b = query[i];
        if 'A' <= a <= 'Z' && b as int == a as int + 32 {
            assert(b == ((a as u32) + 32) as char);
        } else if 'a' <= a <= 'z' && a as int == b as int + 32 {
            assert(a == ((b as u32) + 32) as char);
        }
    }
    assert(ascii_lower(name) =~= ascii_lower(query));
    lemma_name_matches_case_insensitive(name, name);
    assert(ascii_lower(name).subrange(0, name.len() as int) =~= ascii_lower(name));
    assert(occurs_at(ascii_lower(name), ascii_lower(query), 0));
}

/// Matching ignores ASCII case on both sides: a name matches a query exactly
/// when it matches the query folded to lower case, and exactly when the name
/// folded to lower case matches it. Every name matches itself and each of its
/// substrings (found as they are), and no query longer than the name matches.
pub proof fn lemma_name_matches_case_insensitive(name: Seq<char>, query: Seq<char>)
    ensures
        name_matches(name, query) == name_matches(name, ascii_lower(query)),
        name_matches(name, query) == name_matches(ascii_lower(name), query),
        name_matches(name, name),
        forall|i: int, j: int| 0 <= i <= j <= name.len() ==> #[trigger] name_matches(name, name.subrange(i, j)),
        name_matches(name, query) ==> query.len() <= name.len(),
{
    lemma_ascii_lower_idempotent(query);
    lemma_ascii_lower_idempotent(name);
    let ln = ascii_lower(name);
    assert forall|i: int, j: int| 0 <= i <= j <= name.len() implies #[trigger] name_matches(name, name.subrange(i, j)) by {
        let sub = name.subrange(i, j);
        assert(ascii_lower(sub) =~= ln.subrange(i, j));
        assert(occurs_at(ln, ascii_lower(sub), i));
    }
    assert(name.subrange(0, name.len() as int) =~= name);
    if name_matches(name, query) {
        let i = choose|i: int| occurs_at(ln, ascii_lower(query), i);
        assert(ascii_lower(query).len() == query.len());
    }
}

/// The tier of a matching name: 0 where it is the query, 1 where it starts
/// with it, 2 where it merely holds it (ASCII letters folded to lower case).
pub open spec fn match_rank(name: Seq<char>, query: Seq<char>) -> u32 {
    let n = ascii_lower(name);
    let q = ascii_lower(query);
    if n == q {
        0
    } else if q.len() <= n.len() && n.take(q.len() as int) == q {
        1
    } else {
        2
    }
}

/// The tiers ignore ASCII case too; a name equal to the query is in the
/// first tier, and a name that extends the query is in the second.
pub proof fn lemma_match_rank_tiers(name: Seq<char>, query: Seq<char>, rest: Seq<char>)
    ensures
        match_rank(name, query) == match_rank(name, ascii_lower(query)),
        match_rank(name, query) == match_rank(ascii_lower(name), query),
        match_rank(name, name) == 0,
        rest.len() > 0 ==> match_rank(query + rest, query) == 1,
{
    lemma_ascii_lower_idempotent(query);
    lemma_ascii_lower_idempotent(name);
    if rest.len() > 0 {
        let n = ascii_lower(query + rest);
        let q = ascii_lower(query);
        assert(n.take(q.len() as int) =~= q);
        assert(n.len() != q.len());
    }
}

/// The order of search results: tier, then name, then file, then line.
pub open spec fn find_key(m: FindMatch, query: Seq<char>) -> (u32, Seq<char>, Seq<char>, u32) {
    (match_rank(m.name@, query), m.name@, m.file@, m.line)
}

/// The symbols among the first `k` whose names match `query`, in order.
pub open spec fn find_candidates(symbols: Seq<FindMatch>, query: Seq<char>, k: int) -> Seq<FindMatch>
    decreases k,
{
    if k <= 0 || k > symbols.len() {
        Seq::empty()
    } else {
        let prev = find_candidates(symbols, query, k - 1);
        if name_matches(symbols[k - 1].name@, query) {
            prev.push(symbols[k - 1])
        } else {
            prev
        }
    }
}

/// The token estimate of a search result.
pub open spec fn find_cost(m: FindMatch) -> nat {
    token_estimate(symbol_render_len(m.name@, m.file@, m.line, m.kind@, signature_text(string_opt(m.signature)), m.is_public))
}

/// A symbol's fields are short enough for its token estimate to be
/// computed in a `usize`.
pub open spec fn match_fits(m: FindMatch) -> bool {
    m.name@.len() + m.file@.len() + m.kind@.len() + signature_text(string_opt(m.signature)).len() + 82 <= usize::MAX
}

/// Every symbol fits (see `match_fits`).
pub open spec fn matches_fit(symbols: Seq<FindMatch>) -> bool {
    forall|j: int| 0 <= j < symbols.len() ==> match_fits(#[trigger] symbols[j])
}

/// `r` is the search for `query` among `symbols` with at most `limit`
/// results and `rem` tokens: the matching symbols ordered by `find_key`
/// (stably), of which the leading ones within the limit that fit the budget
/// one after another.
pub open spec fn is_find_of(r: FindResult, symbols: Seq<FindMatch>, query: Seq<char>, limit: nat, rem: nat) -> bool {
    let cands = find_candidates(symbols, query, symbols.len() as int);
    &&& r.total_matches == cands.len()
    &&& exists|sorted: Seq<FindMatch>|
        {
            &&& is_rank_sort(sorted, cands, cands.map_values(|m: FindMatch| find_key(m, query)))
            &&& r.matches@ == sorted.take(
                fit_count(
                    sorted.take(if limit < sorted.len() {
                        limit as int
                    } else {
                        sorted.len() as int
                    }).map_values(|m: FindMatch| find_cost(m)),
                    rem,
                ) as int,
            )
        }
    &&& r.truncated_count == cands.len() - r.matches@.len()
    &&& r.truncated == (r.matches@.len() < cands.len())
}

/// The rank of a name already folded to lower case against a folded query.
fn rank_of(lower_name: &Vec<char>, lower_query: &Vec<char>) -> (r: u32)
    ensures
        r == (if lower_name@ == lower_query@ {
            0u32
        } else if lower_query@.len() <= lower_name@.len() && lower_name@.take(lower_query@.len() as int)
            == lower_query@ {
            1u32
        } else {
            2u32
        }),
{
    if chars_eq(lower_name.as_slice(), lower_query.as_slice()) {
        0
    } else if chars_starts_with(lower_name.as_slice(), lower_query.as_slice()) {
        1
    } else {
        2
    }
}

proof fn lemma_occurs_somewhere(s: Seq<char>, pat: Seq<char>)
    ensures
        first_occurrence(s, pat) is Some <==> exists|i: int| occurs_at(s, pat, i),
{
    reveal(first_occurrence);
}

/// The sort key of `m` where its name matches the query, `None` where it
/// does not. `lower_query` is the query folded to lower case.
fn candidate_key(m: &FindMatch, lower_query: &Vec<char>, query: &str) -> (r: Option<RankKey>)
    requires
        lower_query@ == ascii_lower(query@),
    ensures
        r is Some <==> name_matches(m.name@, query@),
        r matches Some(key) ==> rank_key_view(key) == find_key(*m, query@),
{
    let lower = to_ascii_lowercase(m.name.as_str());
    let hit = find_chars(lower.as_slice(), lower_query.as_slice());
    proof {
        lemma_occurs_somewhere(lower@, lower_query@);
    }
    match hit {
        Some(_) => {
            let rank = rank_of(&lower, lower_query);
            Some((rank, chars_of(m.name.as_str()), chars_of(m.file.as_str()), m.line))
        },
        None => None,
    }
}

/// The symbols whose names match `query`, in order, each with its sort key.
fn collect_candidates(query: &str, symbols: &Vec<FindMatch>) -> (r: (Vec<FindMatch>, Vec<RankKey>))
    requires
        matches_fit(symbols@),
    ensures
        r.0@ == find_candidates(symbols@, query@, symbols@.len() as int),
        r.1@.len() == r.0@.len(),
        r.1@.map_values(|k: RankKey| rank_key_view(k)) == r.0@.map_values(|m: FindMatch| find_key(m, query@)),
        matches_fit(r.0@),
{
    let q = to_ascii_lowercase(query);
    let mut cands: Vec<FindMatch> = Vec::new();
    let mut keys: Vec<RankKey> = Vec::new();
    let mut k: usize = 0;
    while k < symbols.len()
        invariant
            k <= symbols@.len(),
            q@ == ascii_lower(query@),
            cands@ == find_candidates(symbols@, query@, k as int),
            keys@.len() == cands@.len(),
            forall|x: int|
                0 <= x < cands@.len() ==> rank_key_view(#[trigger] keys@[x]) == find_key(cands@[x], query@),
            matches_fit(symbols@),
            matches_fit(cands@),
        decreases symbols@.len() - k,
    {
        let m = &symbols[k];
        match candidate_key(m, &q, query) {
            Some(key) => {
                let ghost before = cands@;
                cands.push(m.clone());
                keys.push(key);
                proof {
                    assert(match_fits(symbols@[k as int]));
                    assert forall|x: int| 0 <= x < cands@.len() implies match_fits(#[trigger] cands@[x]) by {
                        if x < before.len() {
                            assert(cands@[x] == before[x]);
                        }
                    }
                }
            },
            None => {},
        }
        k = k + 1;
    }
    assert(keys@.map_values(|k: RankKey| rank_key_view(k)) =~= cands@.map_values(|m: FindMatch| find_key(m, query@)));
    (cands, keys)
}

/// The leading items of `sorted`, at most `limit`, while their token
/// estimates fit in `budget` one after another.
fn take_fitting(sorted: &Vec<FindMatch>, limit: usize, budget: &mut TokenBudget) -> (matches: Vec<FindMatch>)
    requires
        matches_fit(sorted@),
    ensures
        matches@ == sorted@.take(
            fit_count(
                sorted@.take(if limit < sorted@.len() {
                    limit as int
                } else {
                    sorted@.len() as int
                }).map_values(|m: FindMatch| find_cost(m)),
                old(budget).spec_remaining(),
            ) as int,
        ),
{
    let ghost sv = sorted@;
    let ghost rem0 = budget.spec_remaining();
    let cap: usize = if limit < sorted.len() {
        limit
    } else {
        sorted.len()
    };
    let ghost costs = sv.take(cap as int).map_values(|m: FindMatch| find_cost(m));
    let mut matches: Vec<FindMatch> = Vec::new();
    let mut m: usize = 0;
    let mut open = true;
    proof {
        assert(costs.skip(0) =~= costs);
        assert(matches@ =~= sv.take(0));
    }
    while open && m < cap
        invariant
            sv == sorted@,
            cap <= sv.len(),
            costs == sv.take(cap as int).map_values(|m: FindMatch| find_cost(m)),
            m <= cap,
            matches@ == sv.take(m as int),
            fit_count(costs, rem0) == m + fit_count(costs.skip(m as int), budget.spec_remaining()),
            !open ==> fit_count(costs.skip(m as int), budget.spec_remaining()) == 0,
            matches_fit(sv),
        decreases cap - m, if open { 1int } else { 0int },
    {
        let f = &sorted[m];
        assert(match_fits(sv[m as int]));
        let sig: Option<&str> = match &f.signature {
            Some(s) => Some(s.as_str()),
            None => None,
        };
        let cost = estimate_symbol_tokens(f.name.as_str(), f.file.as_str(), f.line, f.kind.as_str(), sig, f.is_public);
        assert(costs[m as int] == cost);
        let ghost rem = budget.spec_remaining();
        proof {
            lemma_fit_step(costs, m as int, rem);
        }
        if budget.try_consume(cost) {
            matches.push(f.clone());
            assert(matches@ =~= sv.take(m + 1));
            m = m + 1;
        } else {
            open = false;
        }
    }
    proof {
        if open {
            assert(costs.skip(m as int) =~= Seq::<nat>::empty());
        }
    }
    matches
}

/// Searches `symbols` for names that hold `query` (ASCII letters folded to
/// lower case), ranks them (the name itself, then names starting with the
/// query, then the rest; within a tier by name, file and line) and returns
/// the leading ones, at most `limit`, while their token estimates fit in
/// `budget`, with how many matched in all and how many were left out.
pub fn find(query: &str, symbols: &Vec<FindMatch>, limit: usize, budget: TokenBudget) -> (r: FindResult)
    requires
        matches_fit(symbols@),
    ensures
        is_find_of(r, symbols@, query@, limit as nat, budget.spec_remaining()),
{
    let mut budget = budget;
    let ghost rem0 = budget.spec_remaining();
    let (cands, keys) = collect_candidates(query, symbols);
    let ghost cv = cands@;
    let total = cands.len();
    let sorted = stable_sort_by_rank(cands, keys);
    let ghost sv = sorted@;
    proof {
        let ks = keys@.map_values(|k: RankKey| rank_key_view(k));
        let perm = choose|perm: Seq<int>|
            #[trigger] stably_ranks(perm, ks) && forall|i: int| 0 <= i < sv.len() ==> #[trigger] sv[i] == cv[perm[i]];
        assert forall|x: int| 0 <= x < sv.len() implies match_fits(#[trigger] sv[x]) by {
            assert(sv[x] == cv[perm[x]]);
            assert(0 <= perm[x] < cv.len());
        }
    }
    let matches = take_fitting(&sorted, limit, &mut budget);
    proof {
        lemma_fit_count_bound(
            sv.take(if limit < sv.len() {
                limit as int
            } else {
                sv.len() as int
            }).map_values(|m: FindMatch| find_cost(m)),
            rem0,
        );
    }
    let returned = matches.len();
    FindResult { matches, total_matches: total, truncated: returned < total, truncated_count: total - returned }
}

proof fn lemma_candidates_match(symbols: Seq<FindMatch>, query: Seq<char>, k: int)
    ensures
        forall|x: int|
            0 <= x < find_candidates(symbols, query, k).len() ==> name_matches(
                (#[trigger] find_candidates(symbols, query, k)[x]).name@,
                query,
            ) && exists|j: int| 0 <= j < symbols.len() && symbols[j] == find_candidates(symbols, query, k)[x],
    decreases k,
{
    if k > 0 && k <= symbols.len() {
        lemma_candidates_match(symbols, query, k - 1);
        let prev = find_candidates(symbols, query, k - 1);
        let cur = find_candidates(symbols, query, k);
        assert forall|x: int| 0 <= x < cur.len() implies name_matches((#[trigger] cur[x]).name@, query) && exists|j: int|
            0 <= j < symbols.len() && symbols[j] == cur[x] by {
            if x < prev.len() {
                assert(cur[x] == prev[x]);
            } else {
                assert(cur[x] == symbols[k - 1]);
            }
        }
    }
}

/// What a search returns holds of every budget: no more matches than the
/// limit; each one a symbol that was searched, whose name holds the query
/// (ASCII letters folded to lower case); in rank order (see `find_key`);
/// and the matches returned and those left out together make up all that
/// matched.
pub proof fn lemma_find_result_well_formed(r: FindResult, symbols: Seq<FindMatch>, query: Seq<char>, limit: nat, rem: nat)
    requires
        is_find_of(r, symbols, query, limit, rem),
    ensures
        r.matches@.len() <= limit,
        forall|i: int| 0 <= i < r.matches@.len() ==> name_matches((#[trigger] r.matches@[i]).name@, query),
        forall|i: int|
            0 <= i < r.matches@.len() ==> exists|j: int| 0 <= j < symbols.len() && symbols[j] == #[trigger] r.matches@[i],
        forall|i: int, j: int|
            0 <= i < j < r.matches@.len() ==> crate::order::rank_le(
                find_key(r.matches@[i], query),
                find_key(r.matches@[j], query),
            ),
        r.matches@.len() + r.truncated_count == r.total_matches,
        r.truncated <==> r.truncated_count > 0,
{
    let cands = find_candidates(symbols, query, symbols.len() as int);
    lemma_candidates_match(symbols, query, symbols.len() as int);
    let ks = cands.map_values(|m: FindMatch| find_key(m, query));
    let sorted = choose|sorted: Seq<FindMatch>|
        {
            &&& is_rank_sort(sorted, cands, ks)
            &&& r.matches@ == sorted.take(
                fit_count(
                    sorted.take(if limit < sorted.len() {
                        limit as int
                    } else {
                        sorted.len() as int
                    }).map_values(|m: FindMatch| find_cost(m)),
                    rem,
                ) as int,
            )
        };
    let capped = sorted.take(if limit < sorted.len() {
        limit as int
    } else {
        sorted.len() as int
    }).map_values(|m: FindMatch| find_cost(m));
    lemma_fit_count_bound(capped, rem);
    let perm = choose|perm: Seq<int>|
        #[trigger] stably_ranks(perm, ks) && forall|i: int| 0 <= i < sorted.len() ==> #[trigger] sorted[i] == cands[perm[i]];
    assert forall|i: int| 0 <= i < r.matches@.len() implies name_matches((#[trigger] r.matches@[i]).name@, query) && exists|j: int|
        0 <= j < symbols.len() && symbols[j] == r.matches@[i] by {
        assert(r.matches@[i] == sorted[i]);
        assert(sorted[i] == cands[perm[i]]);
        assert(0 <= perm[i] < cands.len());
    }
    assert forall|i: int, j: int| 0 <= i < j < r.matches@.len() implies crate::order::rank_le(
        find_key(r.matches@[i], query),
        find_key(r.matches@[j], query),
    ) by {
        assert(r.matches@[i] == sorted[i] && sorted[i] == cands[perm[i]]);
        assert(r.matches@[j] == sorted[j] && sorted[j] == cands[perm[j]]);
        assert(ks[perm[i]] == find_key(cands[perm[i]], query));
        assert(ks[perm[j]] == find_key(cands[perm[j]], query));
    }
}

/// A matched definition with all its callers and callees, before a token
/// budget trims them.
pub struct SymbolRecord {
    pub symbol: SymbolInfo,
    pub callers: Vec<CallerInfo>,
    pub callees: Vec<CalleeInfo>,
}

/// The token estimate of a caller entry.
pub open spec fn caller_cost(c: CallerInfo) -> nat {
    token_estimate(node_render_len(c.name@, c.file@, c.line, c.resolution@))
}

/// The token estimate of a callee entry, rendered as a node without a line
/// (line 0) and with an empty file where it resolved to none.
pub open spec fn callee_cost(c: CalleeInfo) -> nat {
    token_estimate(
        node_render_len(
            c.name@,
            match string_opt(c.file) {
                Some(f) => f,
                None => Seq::empty(),
            },
            0,
            c.resolution@,
        ),
    )
}

/// A record's fields are short enough for every token estimate to be
/// computed in a `usize`.
pub open spec fn record_fits(r: SymbolRecord) -> bool {
    &&& r.callers@.len() + r.callees@.len() <= usize::MAX
    &&& forall|i: int|
        0 <= i < r.callers@.len() ==> (#[trigger] r.callers@[i]).name@.len() + r.callers@[i].file@.len()
            + r.callers@[i].resolution@.len() + 55 <= usize::MAX
    &&& forall|i: int|
        0 <= i < r.callees@.len() ==> (#[trigger] r.callees@[i]).name@.len() + (match string_opt(r.callees@[i].file) {
            Some(f) => f.len(),
            None => 0,
        }) + r.callees@[i].resolution@.len() + 55 <= usize::MAX
}

/// The records whose definition is on `line`, where one is given.
pub open spec fn records_on_line(records: Seq<SymbolRecord>, line: Option<u32>, k: int) -> Seq<SymbolRecord>
    decreases k,
{
    if k <= 0 || k > records.len() {
        Seq::empty()
    } else {
        let prev = records_on_line(records, line, k - 1);
        if line is None || line == Some(records[k - 1].symbol.line) {
            prev.push(records[k - 1])
        } else {
            prev
        }
    }
}

/// The tokens each of `n` matched definitions may spend on its callers, and
/// as many on its callees: half of an even share of `rem`.
pub open spec fn half_share(rem: nat, n: nat) -> nat {
    if n == 0 {
        0
    } else {
        rem / n / 2
    }
}

/// `out` is `rec` trimmed to `half` tokens for its callers and as many for
/// its callees: the leading entries of each list that fit one after
/// another, and how many of both were left out.
pub open spec fn is_trimmed(out: SymbolResult, rec: SymbolRecord, half: nat) -> bool {
    let nc = fit_count(rec.callers@.map_values(|c: CallerInfo| caller_cost(c)), half);
    let ne = fit_count(rec.callees@.map_values(|c: CalleeInfo| callee_cost(c)), half);
    &&& out.symbol == rec.symbol
    &&& out.callers@ == rec.callers@.take(nc as int)
    &&& out.callees@ == rec.callees@.take(ne as int)
    &&& out.truncated_count == (rec.callers@.len() - nc) + (rec.callees@.len() - ne)
    &&& out.truncated == (out.truncated_count > 0)
}

fn clone_caller(c: &CallerInfo) -> (d: CallerInfo)
    ensures
        d == *c,
{
    CallerInfo { name: c.name.clone(), file: c.file.clone(), line: c.line, resolution: c.resolution.clone() }
}

fn clone_callee(c: &CalleeInfo) -> (d: CalleeInfo)
    ensures
        d == *c,
{
    CalleeInfo { name: c.name.clone(), file: clone_opt(&c.file), resolution: c.resolution.clone() }
}

/// The leading callers that fit in `half` tokens one after another.
fn fit_callers(callers: &Vec<CallerInfo>, half: usize) -> (out: Vec<CallerInfo>)
    requires
        forall|i: int|
            0 <= i < callers@.len() ==> (#[trigger] callers@[i]).name@.len() + callers@[i].file@.len()
                + callers@[i].resolution@.len() + 55 <= usize::MAX,
    ensures
        out@ == callers@.take(fit_count(callers@.map_values(|c: CallerInfo| caller_cost(c)), half as nat) as int),
{
    let ghost costs = callers@.map_values(|c: CallerInfo| caller_cost(c));
    let mut budget = TokenBudget::new(half);
    let mut out: Vec<CallerInfo> = Vec::new();
    let mut m: usize = 0;
    let mut open = true;
    proof {
        assert(costs.skip(0) =~= costs);
        assert(out@ =~= callers@.take(0));
    }
    while open && m < callers.len()
        invariant
            costs == callers@.map_values(|c: CallerInfo| caller_cost(c)),
            m <= callers@.len(),
            out@ == callers@.take(m as int),
            fit_count(costs, half as nat) == m + fit_count(costs.skip(m as int), budget.spec_remaining()),
            !open ==> fit_count(costs.skip(m as int), budget.spec_remaining()) == 0,
            forall|i: int|
                0 <= i < callers@.len() ==> (#[trigger] callers@[i]).name@.len() + callers@[i].file@.len()
                    + callers@[i].resolution@.len() + 55 <= usize::MAX,
        decreases callers@.len() - m, if open { 1int } else { 0int },
    {
        let c = &callers[m];
        let cost = estimate_node_tokens(c.name.as_str(), c.file.as_str(), c.line, c.resolution.as_str());
        assert(costs[m as int] == cost);
        let ghost rem = budget.spec_remaining();
        proof {
            lemma_fit_step(costs, m as int, rem);
        }
        if budget.try_consume(cost) {
            out.push(clone_caller(c));
            assert(out@ =~= callers@.take(m + 1));
            m = m + 1;
        } else {
            open = false;
        }
    }
    proof {
        if open {
            assert(costs.skip(m as int) =~= Seq::<nat>::empty());
        }
    }
    out
}

/// The leading callees that fit in `half` tokens one after another.
fn fit_callees(callees: &Vec<CalleeInfo>, half: usize) -> (out: Vec<CalleeInfo>)
    requires
        forall|i: int|
            0 <= i < callees@.len() ==> (#[trigger] callees@[i]).name@.len() + (match string_opt(callees@[i].file) {
                Some(f) => f.len(),
                None => 0,
            }) + callees@[i].resolution@.len() + 55 <= usize::MAX,
    ensures
        out@ == callees@.take(fit_count(callees@.map_values(|c: CalleeInfo| callee_cost(c)), half as nat) as int),
{
    let ghost costs = callees@.map_values(|c: CalleeInfo| callee_cost(c));
    let mut budget = TokenBudget::new(half);
    let mut out: Vec<CalleeInfo> = Vec::new();
    let mut m: usize = 0;
    let mut open = true;
    proof {
        assert(costs.skip(0) =~= costs);
        assert(out@ =~= callees@.take(0));
    }
    while open && m < callees.len()
        invariant
            costs == callees@.map_values(|c: CalleeInfo| callee_cost(c)),
            m <= callees@.len(),
            out@ == callees@.take(m as int),
            fit_count(costs, half as nat) == m + fit_count(costs.skip(m as int), budget.spec_remaining()),
            !open ==> fit_count(costs.skip(m as int), budget.spec_remaining()) == 0,
            forall|i: int|
                0 <= i < callees@.len() ==> (#[trigger] callees@[i]).name@.len() + (match string_opt(callees@[i].file) {
                    Some(f) => f.len(),
                    None => 0,
                }) + callees@[i].resolution@.len() + 55 <= usize::MAX,
        decreases callees@.len() - m, if open { 1int } else { 0int },
    {
        let c = &callees[m];
        let file: &str = match &c.file {
            Some(f) => f.as_str(),
            None => "",
        };
        proof {
            reveal_strlit("");
        }
        let cost = estimate_node_tokens(c.name.as_str(), file, 0, c.resolution.as_str());
        assert(costs[m as int] == cost);
        let ghost rem = budget.spec_remaining();
        proof {
            lemma_fit_step(costs, m as int, rem);
        }
        if budget.try_consume(cost) {
            out.push(clone_callee(c));
            assert(out@ =~= callees@.take(m + 1));
            m = m + 1;
        } else {
            open = false;
        }
    }
    proof {
        if open {
            assert(costs.skip(m as int) =~= Seq::<nat>::empty());
        }
    }
    out
}

/// `rec` trimmed to `half` tokens for its callers and as many for its
/// callees.
fn trim_record(rec: &SymbolRecord, half: usize) -> (out: SymbolResult)
    requires
        record_fits(*rec),
    ensures
        is_trimmed(out, *rec, half as nat),
{
    let callers = fit_callers(&rec.callers, half);
    let callees = fit_callees(&rec.callees, half);
    proof {
        lemma_fit_count_bound(rec.callers@.map_values(|c: CallerInfo| caller_cost(c)), half as nat);
        lemma_fit_count_bound(rec.callees@.map_values(|c: CalleeInfo| callee_cost(c)), half as nat);
    }
    let dropped = (rec.callers.len() - callers.len()) + (rec.callees.len() - callees.len());
    SymbolResult { symbol: rec.symbol.clone(), callers, callees, truncated: dropped > 0, truncated_count: dropped }
}

/// The definitions of `records` on `line` (all of them where no line is
/// given), each with its callers and callees trimmed to fit `budget`: the
/// budget is shared evenly among the definitions, and each one's share is
/// split evenly between its callers and its callees, so that no definition,
/// and neither list, can crowd out the others.
pub fn get_symbol(records: &Vec<SymbolRecord>, line: Option<u32>, budget: TokenBudget) -> (out: Vec<SymbolResult>)
    requires
        forall|i: int| 0 <= i < records@.len() ==> record_fits(#[trigger] records@[i]),
    ensures
        ({
            let selected = records_on_line(records@, line, records@.len() as int);
            &&& out@.len() == selected.len()
            &&& forall|i: int|
                0 <= i < out@.len() ==> is_trimmed(
                    #[trigger] out@[i],
                    selected[i],
                    half_share(budget.spec_remaining(), selected.len()),
                )
        }),
{
    let mut picked: Vec<usize> = Vec::new();
    let ghost sel = records_on_line(records@, line, records@.len() as int);
    let mut k: usize = 0;
    while k < records.len()
        invariant
            k <= records@.len(),
            picked@.len() == records_on_line(records@, line, k as int).len(),
            forall|x: int|
                0 <= x < picked@.len() ==> (#[trigger] picked@[x]) < records@.len() && records@[picked@[x] as int]
                    == records_on_line(records@, line, k as int)[x],
        decreases records@.len() - k,
    {
        let keep = match line {
            Some(l) => records[k].symbol.line == l,
            None => true,
        };
        if keep {
            picked.push(k);
        }
        k = k + 1;
    }
    let n = picked.len();
    let half: usize = if n == 0 {
        0
    } else {
        budget.remaining() / n / 2
    };
    assert(half == half_share(budget.spec_remaining(), sel.len()));
    let mut out: Vec<SymbolResult> = Vec::new();
    let mut i: usize = 0;
    while i < n
        invariant
            n == picked@.len(),
            n == sel.len(),
            i <= n,
            out@.len() == i,
            half == half_share(budget.spec_remaining(), sel.len()),
            forall|x: int|
                0 <= x < picked@.len() ==> (#[trigger] picked@[x]) < records@.len() && records@[picked@[x] as int]
                    == sel[x],
            forall|x: int| 0 <= x < records@.len() ==> record_fits(#[trigger] records@[x]),
            forall|x: int| 0 <= x < i ==> is_trimmed(#[trigger] out@[x], sel[x], half as nat),
        decreases n - i,
    {
        let r = &records[picked[i]];
        assert(records@[picked@[i as int] as int] == sel[i as int]);
        out.push(trim_record(r, half));
        i = i + 1;
    }
    out
}

/// The total of `costs`.
pub open spec fn cost_sum(costs: Seq<nat>) -> nat
    decreases costs.len(),
{
    if costs.len() == 0 {
        0
    } else {
        costs[0] + cost_sum(costs.drop_first())
    }
}

/// Taking the leading items that fit spends exactly what is not left over,
/// and so never more than was there.
pub proof fn lemma_fit_spends(costs: Seq<nat>, rem: nat)
    ensures
        cost_sum(costs.take(fit_count(costs, rem) as int)) + fit_rest(costs, rem) == rem,
        cost_sum(costs.take(fit_count(costs, rem) as int)) <= rem,
    decreases costs.len(),
{
    if costs.len() == 0 || costs[0] > rem {
        assert(costs.take(0) =~= Seq::<nat>::empty());
    } else {
        let rest = costs.drop_first();
        let r2 = (rem - costs[0]) as nat;
        lemma_fit_spends(rest, r2);
        lemma_fit_count_bound(rest, r2);
        let n = fit_count(rest, r2);
        assert(costs.take((n + 1) as int).drop_first() =~= rest.take(n as int));
        assert(costs.take((n + 1) as int)[0] == costs[0]);
    }
}

/// A trimmed definition spends at most its half share on its callers and
/// at most as much on its callees; all definitions together spend at most
/// the budget.
pub proof fn lemma_trimmed_within_share(out: SymbolResult, rec: SymbolRecord, rem: nat, n: nat)
    requires
        n > 0,
        is_trimmed(out, rec, half_share(rem, n)),
    ensures
        cost_sum(out.callers@.map_values(|c: CallerInfo| caller_cost(c))) <= half_share(rem, n),
        cost_sum(out.callees@.map_values(|c: CalleeInfo| callee_cost(c))) <= half_share(rem, n),
        2 * half_share(rem, n) * n <= rem,
{
    let half = half_share(rem, n);
    let cc = rec.callers@.map_values(|c: CallerInfo| caller_cost(c));
    let ec = rec.callees@.map_values(|c: CalleeInfo| callee_cost(c));
    lemma_fit_spends(cc, half);
    lemma_fit_spends(ec, half);
    lemma_fit_count_bound(cc, half);
    lemma_fit_count_bound(ec, half);
    assert(out.callers@.map_values(|c: CallerInfo| caller_cost(c)) =~= cc.take(fit_count(cc, half) as int));
    assert(out.callees@.map_values(|c: CalleeInfo| callee_cost(c)) =~= ec.take(fit_count(ec, half) as int));
    assert(2 * (rem / n / 2) * n <= rem) by (nonlinear_arith)
        requires
            n > 0,
    {
        assert(2 * (rem / n / 2) <= rem / n);
        assert((rem / n) * n <= rem);
        assert(2 * (rem / n / 2) * n <= (rem / n) * n);
    }
}

/// An impact result spends on its nodes exactly what its budget loses, and
/// so never more than was there.
pub proof fn lemma_impact_spends(r: ImpactResult, g: Seq<CallEdge>, t: SymbolInfo, rem: nat)
    requires
        is_impact_of(r, g, t, rem),
    ensures
        cost_sum(r.affected@.map_values(|n: ImpactNode| token_estimate(node_render_len(n.name@, n.file@, n.line, n.resolution@))))
            + fit_rest(order_costs(g, impact_order(g, t)), rem) == rem,
{
    let order = impact_order(g, t);
    let costs = order_costs(g, order);
    let n = fit_count(costs, rem);
    lemma_fit_spends(costs, rem);
    lemma_fit_count_bound(costs, rem);
    let mine = r.affected@.map_values(|n: ImpactNode| token_estimate(node_render_len(n.name@, n.file@, n.line, n.resolution@)));
    assert forall|i: int| 0 <= i < mine.len() implies #[trigger] mine[i] == costs.take(n as int)[i] by {
        assert(node_of_edge(r.affected@[i], g[order[i].0], order[i].1));
    }
    assert(mine =~= costs.take(n as int));
}

/// The affected nodes of the result whose target is the definition at
/// `line` of `file`: those of the first such result, or none.
pub fn affected_for(results: Vec<ImpactResult>, file: &str, line: u32) -> (out: Vec<ImpactNode>)
    ensures
        (exists|i: int| 0 <= i < results@.len() && (#[trigger] results@[i]).target.file@ == file@ && results@[i].target.line == line)
            ==> exists|i: int|
            0 <= i < results@.len() && (#[trigger] results@[i]).target.file@ == file@ && results@[i].target.line == line
                && out@ == results@[i].affected@ && forall|j: int|
                0 <= j < i ==> !(results@[j].target.file@ == file@ && results@[j].target.line == line),
        (forall|i: int|
            0 <= i < results@.len() ==> !((#[trigger] results@[i]).target.file@ == file@ && results@[i].target.line
                == line)) ==> out@.len() == 0,
{
    let ghost rs = results@;
    assert(rs.skip(0) =~= rs);
    let total = results.len();
    let mut rest = results;
    let mut k: usize = 0;
    while rest.len() > 0
        invariant
            k + rest@.len() == rs.len(),
            total == rs.len(),
            rs == results@,
            rest@ == rs.skip(k as int),
            forall|j: int| 0 <= j < k ==> !((#[trigger] rs[j]).target.file@ == file@ && rs[j].target.line == line),
        decreases rest@.len(),
    {
        let r = rest.remove(0);
        assert(r == rs[k as int]);
        assert(rest@ =~= rs.skip(k + 1));
        if str_eq(r.target.file.as_str(), file) && r.target.line == line {
            assert(rs[k as int].target.file@ == file@ && rs[k as int].target.line == line);
            assert(rs[k as int].affected@ == r.affected@);
            return r.affected;
        }
        k = k + 1;
    }
    Vec::new()
}

/// `key` is the target, or a definition the walk `full` found at depth `d`
/// or nearer.
pub open spec fn located(g: Seq<CallEdge>, t: SymbolInfo, full: Seq<(int, nat)>, key: SymbolKey, d: nat) -> bool {
    key == symbol_key(t) || exists|r: int| 0 <= r < full.len() && caller_key(g[full[r].0]) == key && #[trigger] full[r].1 <= d
}

/// Every caller of the definition found as `q` is located in `full` at most
/// one hop further than `q`, where `q` lies nearer than the deepest level.
pub open spec fn callers_located(g: Seq<CallEdge>, t: SymbolInfo, full: Seq<(int, nat)>, q: (int, nat)) -> bool {
    q.1 < MAX_IMPACT_DEPTH ==> forall|j: int|
        0 <= j < g.len() && #[trigger] calls_into(g[j], g[q.0].caller_file@, g[q.0].caller_name@) ==> located(
            g,
            t,
            full,
            caller_key(g[j]),
            (q.1 + 1) as nat,
        )
}

proof fn lemma_scan_complete(
    g: Seq<CallEdge>,
    file: Seq<char>,
    name: Seq<char>,
    depth: nat,
    k: int,
    seen: Seq<SymbolKey>,
    j: int,
)
    requires
        0 <= j < k <= g.len(),
        calls_into(g[j], file, name),
    ensures
        (seen + found_keys(g, scan_callers(g, file, name, depth, k, seen))).contains(caller_key(g[j])),
    decreases k,
{
    let prev = scan_callers(g, file, name, depth, k - 1, seen);
    let cur = scan_callers(g, file, name, depth, k, seen);
    let before = seen + found_keys(g, prev);
    if j < k - 1 {
        lemma_scan_complete(g, file, name, depth, k - 1, seen, j);
    }
    if cur != prev {
        lemma_found_keys_push(g, prev, (k - 1, depth));
        assert(seen + found_keys(g, cur) =~= before.push(caller_key(g[k - 1])));
        if j < k - 1 {
            let x = choose|x: int| 0 <= x < before.len() && before[x] == caller_key(g[j]);
            assert((seen + found_keys(g, cur))[x] == caller_key(g[j]));
        } else {
            assert((seen + found_keys(g, cur))[before.len() as int] == caller_key(g[j]));
        }
    }
}

proof fn lemma_expand_complete(
    g: Seq<CallEdge>,
    layer: Seq<(int, nat)>,
    depth: nat,
    i: int,
    seen: Seq<SymbolKey>,
    i2: int,
    j: int,
)
    requires
        0 <= i2 < i <= layer.len(),
        0 <= j < g.len(),
        calls_into(g[j], g[layer[i2].0].caller_file@, g[layer[i2].0].caller_name@),
    ensures
        (seen + found_keys(g, expand_layer(g, layer, depth, i, seen))).contains(caller_key(g[j])),
    decreases i,
{
    let prev = expand_layer(g, layer, depth, i - 1, seen);
    let e = g[layer[i - 1].0];
    let seen2 = seen + found_keys(g, prev);
    let sc = scan_callers(g, e.caller_file@, e.caller_name@, depth, g.len() as int, seen2);
    lemma_found_keys_concat(g, prev, sc);
    let all = seen + found_keys(g, prev + sc);
    assert(all =~= seen2 + found_keys(g, sc));
    assert(expand_layer(g, layer, depth, i, seen) == prev + sc);
    if i2 < i - 1 {
        lemma_expand_complete(g, layer, depth, i - 1, seen, i2, j);
        let x = choose|x: int| 0 <= x < seen2.len() && seen2[x] == caller_key(g[j]);
        assert(all[x] == caller_key(g[j]));
    } else {
        lemma_scan_complete(g, e.caller_file@, e.caller_name@, depth, g.len() as int, seen2, j);
    }
}

/// A key among the walk's seen keys is the target or an item of the walk.
proof fn lemma_seen_located(g: Seq<CallEdge>, t: SymbolInfo, prefix: Seq<(int, nat)>, full: Seq<(int, nat)>, key: SymbolKey, d: nat)
    requires
        seen_keys(g, t, prefix).contains(key),
        prefix.len() <= full.len(),
        forall|r: int| 0 <= r < prefix.len() ==> full[r] == prefix[r] && (#[trigger] prefix[r]).1 <= d,
    ensures
        located(g, t, full, key, d),
{
    let seen = seen_keys(g, t, prefix);
    let x = choose|x: int| 0 <= x < seen.len() && seen[x] == key;
    if x > 0 {
        let r = x - 1;
        assert(seen[x] == found_keys(g, prefix)[r]);
        assert(full[r] == prefix[r]);
        assert(full[r].1 <= d);
    }
}

proof fn lemma_walk_complete(
    g: Seq<CallEdge>,
    t: SymbolInfo,
    before: Seq<(int, nat)>,
    layer: Seq<(int, nat)>,
    depth: nat,
    x: int,
)
    requires
        depth >= 1,
        no_dup_keys(seen_keys(g, t, before + layer)),
        forall|r: int| 0 <= r < before.len() ==> (#[trigger] before[r]).1 < depth,
        forall|r: int| 0 <= r < layer.len() ==> (#[trigger] layer[r]).1 + 1 == depth,
        forall|r: int| 0 <= r < layer.len() ==> 0 <= (#[trigger] layer[r]).0 < g.len(),
        0 <= x < (layer + walk_layers(g, layer, depth, seen_keys(g, t, before + layer))).len(),
    ensures
        ({
            let w = walk_layers(g, layer, depth, seen_keys(g, t, before + layer));
            callers_located(g, t, before + layer + w, (layer + w)[x])
        }),
    decreases MAX_IMPACT_DEPTH + 1 - depth, (layer + walk_layers(g, layer, depth, seen_keys(g, t, before + layer))).len() - x,
{
    let prefix = before + layer;
    let seen = seen_keys(g, t, prefix);
    let w = walk_layers(g, layer, depth, seen);
    let full = prefix + w;
    let c = layer + w;
    assert(before + layer + w == full);
    if depth > MAX_IMPACT_DEPTH || layer.len() == 0 {
        assert(w.len() == 0);
        assert(c[x] == layer[x]);
    } else {
        let next = expand_layer(g, layer, depth, layer.len() as int, seen);
        lemma_expand_fresh(g, layer, depth, layer.len() as int, seen);
        let seen2 = seen + found_keys(g, next);
        let rest = walk_layers(g, next, depth + 1, seen2);
        assert(w == next + rest);
        lemma_found_keys_concat(g, prefix, next);
        assert(seen_keys(g, t, prefix + next) =~= seen2);
        if x < layer.len() {
            let q = layer[x];
            assert(c[x] == q);
            assert forall|j: int|
                0 <= j < g.len() && #[trigger] calls_into(g[j], g[q.0].caller_file@, g[q.0].caller_name@) implies located(
                g,
                t,
                full,
                caller_key(g[j]),
                (q.1 + 1) as nat,
            ) by {
                lemma_expand_complete(g, layer, depth, layer.len() as int, seen, x, j);
                let key = caller_key(g[j]);
                let all = seen + found_keys(g, next);
                let y = choose|y: int| 0 <= y < all.len() && all[y] == key;
                if y < seen.len() {
                    assert(seen.contains(key));
                    assert forall|r: int| 0 <= r < prefix.len() implies full[r] == prefix[r] && (#[trigger] prefix[r]).1
                        <= depth by {
                        if r >= before.len() {
                            assert(prefix[r] == layer[r - before.len()]);
                        }
                    }
                    lemma_seen_located(g, t, prefix, full, key, depth);
                } else {
                    let r = y - seen.len();
                    assert(all[y] == found_keys(g, next)[r]);
                    assert(full[prefix.len() + r] == next[r]);
                    assert(full[prefix.len() + r].1 <= depth);
                }
            }
        } else {
            let x2 = x - layer.len();
            assert(c[x] == w[x2]);
            assert(no_dup_keys(seen_keys(g, t, prefix + next)));
            assert forall|r: int| 0 <= r < prefix.len() implies (#[trigger] prefix[r]).1 < depth + 1 by {
                if r >= before.len() {
                    assert(prefix[r] == layer[r - before.len()]);
                }
            }
            lemma_walk_complete(g, t, prefix, next, depth + 1, x2);
            assert(prefix + next + rest == full);
            assert((next + rest)[x2] == c[x]);
        }
    }
}

/// A walk misses no affected definition within its depth bound: every
/// caller of the target is found at depth one (unless it is the target
/// itself), and every caller of a definition found at depth `d` below
/// `MAX_IMPACT_DEPTH` is found at depth `d + 1` or nearer (or is the
/// target).
pub proof fn lemma_impact_order_complete(g: Seq<CallEdge>, t: SymbolInfo)
    ensures
        forall|j: int|
            0 <= j < g.len() && #[trigger] calls_into(g[j], t.file@, t.name@) ==> located(
                g,
                t,
                impact_order(g, t),
                caller_key(g[j]),
                1,
            ),
        forall|p: int|
            0 <= p < impact_order(g, t).len() ==> callers_located(g, t, impact_order(g, t), #[trigger] impact_order(g, t)[p]),
{
    let tk = seq![symbol_key(t)];
    let first = scan_callers(g, t.file@, t.name@, 1, g.len() as int, tk);
    lemma_scan_fresh(g, t.file@, t.name@, 1, g.len() as int, tk);
    let seen1 = seen_keys(g, t, first);
    let rest = walk_layers(g, first, 2, seen1);
    let order = impact_order(g, t);
    assert(order == first + rest);
    assert(Seq::<(int, nat)>::empty() + first == first);
    assert forall|j: int| 0 <= j < g.len() && #[trigger] calls_into(g[j], t.file@, t.name@) implies located(
        g,
        t,
        order,
        caller_key(g[j]),
        1,
    ) by {
        lemma_scan_complete(g, t.file@, t.name@, 1, g.len() as int, tk, j);
        let key = caller_key(g[j]);
        let all = tk + found_keys(g, first);
        let y = choose|y: int| 0 <= y < all.len() && all[y] == key;
        if y > 0 {
            assert(all[y] == found_keys(g, first)[y - 1]);
            assert(order[y - 1] == first[y - 1]);
        }
    }
    assert forall|p: int| 0 <= p < order.len() implies callers_located(g, t, order, #[trigger] order[p]) by {
        lemma_walk_complete(g, t, Seq::empty(), first, 2, p);
        assert(Seq::<(int, nat)>::empty() + first + rest == order);
        assert((first + rest)[p] == order[p]);
    }
}

/// The definition `key` calls the target through a chain of `n` calls:
/// directly where `n` is one, and otherwise by calling a definition that
/// does so through `n - 1`.
pub open spec fn reaches(g: Seq<CallEdge>, t: SymbolInfo, key: SymbolKey, n: nat) -> bool
    decreases n,
{
    if n == 0 {
        false
    } else if n == 1 {
        exists|j: int| 0 <= j < g.len() && #[trigger] calls_into(g[j], t.file@, t.name@) && caller_key(g[j]) == key
    } else {
        exists|j: int, i: int|
            0 <= j < g.len() && 0 <= i < g.len() && reaches(g, t, caller_key(g[i]), (n - 1) as nat) && #[trigger] calls_into(
                g[j],
                g[i].caller_file@,
                g[i].caller_name@,
            ) && caller_key(g[j]) == key
    }
}

/// A walk finds every definition that calls the target through a chain of
/// at most `MAX_IMPACT_DEPTH` calls, at a depth no greater than the chain's
/// length: so each definition is reported at its shortest distance from the
/// target (the chains the walk follows are real, see
/// `lemma_impact_order_chained`).
pub proof fn lemma_impact_order_shortest(g: Seq<CallEdge>, t: SymbolInfo, key: SymbolKey, n: nat)
    requires
        reaches(g, t, key, n),
        n <= MAX_IMPACT_DEPTH,
    ensures
        located(g, t, impact_order(g, t), key, n),
    decreases n,
{
    let order = impact_order(g, t);
    lemma_impact_order_complete(g, t);
    if n == 1 {
        let j = choose|j: int| 0 <= j < g.len() && #[trigger] calls_into(g[j], t.file@, t.name@) && caller_key(g[j]) == key;
        assert(calls_into(g[j], t.file@, t.name@));
    } else {
        let (j, i) = choose|j: int, i: int|
            0 <= j < g.len() && 0 <= i < g.len() && reaches(g, t, caller_key(g[i]), (n - 1) as nat) && #[trigger] calls_into(
                g[j],
                g[i].caller_file@,
                g[i].caller_name@,
            ) && caller_key(g[j]) == key;
        lemma_impact_order_shortest(g, t, caller_key(g[i]), (n - 1) as nat);
        if caller_key(g[i]) == symbol_key(t) {
            // The chain passes back through the target: its callers sit at depth one.
            assert(g[i].caller_file@ == t.file@ && g[i].caller_name@ == t.name@);
            assert(calls_into(g[j], t.file@, t.name@));
        } else {
            let r = choose|r: int|
                0 <= r < order.len() && caller_key(g[order[r].0]) == caller_key(g[i]) && #[trigger] order[r].1 <= (n - 1) as nat;
            assert(callers_located(g, t, order, order[r]));
            lemma_impact_order_well_formed(g, t);
            assert(order[r].1 < MAX_IMPACT_DEPTH);
            assert(calls_into(g[j], g[order[r].0].caller_file@, g[order[r].0].caller_name@));
            let d = (order[r].1 + 1) as nat;
            assert(located(g, t, order, key, d));
            if key != symbol_key(t) {
                let r2 = choose|r2: int| 0 <= r2 < order.len() && caller_key(g[order[r2].0]) == key && #[trigger] order[r2].1 <= d;
                assert(order[r2].1 <= n);
            }
        }
    }
}

/// `key` is the target, or a node of `affected` at depth `d` or nearer.
pub open spec fn reported(t: SymbolInfo, affected: Seq<ImpactNode>, key: SymbolKey, d: nat) -> bool {
    key == symbol_key(t) || exists|i: int| 0 <= i < affected.len() && node_key(affected[i]) == key && #[trigger] affected[i].depth <= d
}

/// An impact result that was not truncated reports every affected
/// definition: each caller of the target at depth one, and each caller of a
/// reported node below `MAX_IMPACT_DEPTH` at most one hop further.
pub proof fn lemma_impact_result_complete(r: ImpactResult, g: Seq<CallEdge>, t: SymbolInfo, rem: nat)
    requires
        is_impact_of(r, g, t, rem),
        !r.truncated,
    ensures
        forall|j: int|
            0 <= j < g.len() && #[trigger] calls_into(g[j], t.file@, t.name@) ==> reported(t, r.affected@, caller_key(g[j]), 1),
        forall|i: int, j: int|
            0 <= i < r.affected@.len() && 0 <= j < g.len() && (#[trigger] r.affected@[i]).depth < MAX_IMPACT_DEPTH
                && #[trigger] calls_into(g[j], r.affected@[i].file@, r.affected@[i].name@) ==> reported(
                t,
                r.affected@,
                caller_key(g[j]),
                (r.affected@[i].depth + 1) as nat,
            ),
{
    let order = impact_order(g, t);
    lemma_impact_order_complete(g, t);
    lemma_fit_count_bound(order_costs(g, order), rem);
    assert(r.affected@.len() == order.len());
    assert forall|x: int| 0 <= x < order.len() implies node_of_edge(#[trigger] r.affected@[x], g[order[x].0], order[x].1) by {}
    assert forall|j: int| 0 <= j < g.len() && #[trigger] calls_into(g[j], t.file@, t.name@) implies reported(
        t,
        r.affected@,
        caller_key(g[j]),
        1,
    ) by {
        if caller_key(g[j]) != symbol_key(t) {
            let x = choose|x: int| 0 <= x < order.len() && caller_key(g[order[x].0]) == caller_key(g[j]) && #[trigger] order[x].1 <= 1;
            assert(node_of_edge(r.affected@[x], g[order[x].0], order[x].1));
            assert(node_key(r.affected@[x]) == caller_key(g[j]));
        }
    }
    assert forall|i: int, j: int|
        0 <= i < r.affected@.len() && 0 <= j < g.len() && (#[trigger] r.affected@[i]).depth < MAX_IMPACT_DEPTH
            && #[trigger] calls_into(g[j], r.affected@[i].file@, r.affected@[i].name@) implies reported(
        t,
        r.affected@,
        caller_key(g[j]),
        (r.affected@[i].depth + 1) as nat,
    ) by {
        assert(node_of_edge(r.affected@[i], g[order[i].0], order[i].1));
        assert(callers_located(g, t, order, order[i]));
        assert(calls_into(g[j], g[order[i].0].caller_file@, g[order[i].0].caller_name@));
        if caller_key(g[j]) != symbol_key(t) {
            let x = choose|x: int|
                0 <= x < order.len() && caller_key(g[order[x].0]) == caller_key(g[j]) && #[trigger] order[x].1 <= order[i].1 + 1;
            assert(node_of_edge(r.affected@[x], g[order[x].0], order[x].1));
            assert(node_key(r.affected@[x]) == caller_key(g[j]));
        }
    }
}

/// The sort key of a definition by location: file, then line.
pub open spec fn location_key(s: SymbolInfo) -> (u32, Seq<char>, Seq<char>, u32) {
    (0, s.file@, Seq::empty(), s.line)
}

/// `symbols` sorted stably by file, then line.
pub fn sort_by_location(symbols: Vec<SymbolInfo>) -> (out: Vec<SymbolInfo>)
    ensures
        is_rank_sort(out@, symbols@, symbols@.map_values(|s: SymbolInfo| location_key(s))),
{
    let mut keys: Vec<RankKey> = Vec::new();
    let mut k: usize = 0;
    while k < symbols.len()
        invariant
            k <= symbols@.len(),
            keys@.len() == k,
            forall|x: int| 0 <= x < k ==> rank_key_view(#[trigger] keys@[x]) == location_key(symbols@[x]),
        decreases symbols@.len() - k,
    {
        let s = &symbols[k];
        keys.push((0, chars_of(s.file.as_str()), Vec::new(), s.line));
        k = k + 1;
    }
    proof {
        assert(keys@.map_values(|k: RankKey| rank_key_view(k)) =~= symbols@.map_values(|s: SymbolInfo| location_key(s)));
    }
    stable_sort_by_rank(symbols, keys)
}

} // verus!
