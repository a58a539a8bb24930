use vstd::prelude::*;

use crate::mcp::json::{fields_of, push_field, push_item, views_of, Json, JsonView};
use crate::query::{CalleeInfo, CallerInfo, FindMatch, FindResult, ImpactNode, ImpactResult, SymbolResult};
use crate::text::{decimal_string, decimal_text};

verus! {

/// A text field.
pub open spec fn text(s: Seq<char>) -> JsonView {
    JsonView::Str(s)
}

/// A number field for a count or line.
pub open spec fn num(n: nat) -> JsonView {
    JsonView::Number(decimal_text(n))
}

/// An optional text field: the text, or `null`.
pub open spec fn opt_text(o: Option<String>) -> JsonView {
    match o {
        Some(s) => JsonView::Str(s@),
        None => JsonView::Null,
    }
}

/// A caller as reported.
pub open spec fn caller_view(c: CallerInfo) -> JsonView {
    JsonView::Object(
        seq![("name"@, text(c.name@)), ("file"@, text(c.file@)), ("line"@, num(c.line as nat)), ("resolution"@, text(c.resolution@))],
    )
}

/// A callee as reported.
pub open spec fn callee_view(c: CalleeInfo) -> JsonView {
    JsonView::Object(seq![("name"@, text(c.name@)), ("file"@, opt_text(c.file)), ("resolution"@, text(c.resolution@))])
}

/// A find match as reported.
pub open spec fn find_match_view(m: FindMatch) -> JsonView {
    JsonView::Object(
        seq![
            ("name"@, text(m.name@)),
            ("file"@, text(m.file@)),
            ("line"@, num(m.line as nat)),
            ("kind"@, text(m.kind@)),
            ("signature"@, opt_text(m.signature)),
            ("is_public"@, JsonView::Bool(m.is_public)),
        ],
    )
}

/// An affected symbol as reported.
pub open spec fn affected_view(n: ImpactNode) -> JsonView {
    JsonView::Object(
        seq![
            ("name"@, text(n.name@)),
            ("file"@, text(n.file@)),
            ("line"@, num(n.line as nat)),
            ("resolution"@, text(n.resolution@)),
            ("depth"@, num(n.depth as nat)),
        ],
    )
}

/// One `get_symbol` result as reported.
pub open spec fn symbol_result_view(r: SymbolResult) -> JsonView {
    JsonView::Object(
        seq![
            ("name"@, text(r.symbol.name@)),
            ("file"@, text(r.symbol.file@)),
            ("line"@, num(r.symbol.line as nat)),
            ("kind"@, text(r.symbol.kind@)),
            ("signature"@, opt_text(r.symbol.signature)),
            ("is_public"@, JsonView::Bool(r.symbol.is_public)),
            ("callers"@, JsonView::Array(r.callers@.map_values(|c: CallerInfo| caller_view(c)))),
            ("callees"@, JsonView::Array(r.callees@.map_values(|c: CalleeInfo| callee_view(c)))),
            ("truncated"@, JsonView::Bool(r.truncated)),
            ("truncated_count"@, num(r.truncated_count as nat)),
        ],
    )
}

/// One `impact` result as reported.
pub open spec fn impact_result_view(r: ImpactResult) -> JsonView {
    JsonView::Object(
        seq![
            ("target_name"@, text(r.target.name@)),
            ("target_file"@, text(r.target.file@)),
            ("target_line"@, num(r.target.line as nat)),
            ("truncated"@, JsonView::Bool(r.truncated)),
            ("truncated_count"@, num(r.truncated_count as nat)),
            ("max_depth_reached"@, num(r.max_depth_reached as nat)),
            ("affected_count"@, num(r.affected@.len())),
            ("affected"@, JsonView::Array(r.affected@.map_values(|n: ImpactNode| affected_view(n)))),
        ],
    )
}

/// The answer when nothing matched `query`.
pub open spec fn not_found_view(query: Seq<char>) -> JsonView {
    JsonView::Object(
        seq![
            ("query"@, text(query)),
            ("found"@, JsonView::Bool(false)),
            ("count"@, num(0)),
            ("results"@, JsonView::Array(Seq::empty())),
            ("message"@, text("no symbol named \""@ + query + "\" found in the index"@)),
        ],
    )
}

/// The answer listing `results` for `query`.
pub open spec fn found_view(query: Seq<char>, results: Seq<JsonView>) -> JsonView {
    JsonView::Object(
        seq![
            ("query"@, text(query)),
            ("found"@, JsonView::Bool(true)),
            ("count"@, num(results.len())),
            ("results"@, JsonView::Array(results)),
        ],
    )
}

/// The `get_symbol` answer.
pub open spec fn get_symbol_payload_view(name: Seq<char>, results: Seq<SymbolResult>) -> JsonView {
    if results.len() == 0 {
        not_found_view(name)
    } else {
        found_view(name, results.map_values(|r: SymbolResult| symbol_result_view(r)))
    }
}

/// The `impact` answer.
pub open spec fn impact_payload_view(name: Seq<char>, results: Seq<ImpactResult>) -> JsonView {
    if results.len() == 0 {
        not_found_view(name)
    } else {
        found_view(name, results.map_values(|r: ImpactResult| impact_result_view(r)))
    }
}

/// The `find` answer: nothing matched; matches that no budget admits; or
/// the matches.
pub open spec fn find_payload_view(query: Seq<char>, r: FindResult) -> JsonView {
    if r.total_matches == 0 {
        JsonView::Object(
            seq![
                ("query"@, text(query)),
                ("found"@, JsonView::Bool(false)),
                ("count"@, num(0)),
                ("total_matches"@, num(0)),
                ("truncated"@, JsonView::Bool(r.truncated)),
                ("truncated_count"@, num(r.truncated_count as nat)),
                ("results"@, JsonView::Array(Seq::empty())),
                ("message"@, text("no symbol matching \""@ + query + "\" found in the index"@)),
            ],
        )
    } else if r.matches@.len() == 0 {
        JsonView::Object(
            seq![
                ("query"@, text(query)),
                ("found"@, JsonView::Bool(true)),
                ("count"@, num(0)),
                ("total_matches"@, num(r.total_matches as nat)),
                ("truncated"@, JsonView::Bool(r.truncated)),
                ("truncated_count"@, num(r.truncated_count as nat)),
                ("results"@, JsonView::Array(Seq::empty())),
                ("message"@, text(decimal_text(r.total_matches as nat) + " symbol(s) matched \""@ + query
                    + "\" but none fit within the token budget; increase token_budget to see them"@)),
            ],
        )
    } else {
        JsonView::Object(
            seq![
                ("query"@, text(query)),
                ("found"@, JsonView::Bool(true)),
                ("count"@, num(r.matches@.len())),
                ("total_matches"@, num(r.total_matches as nat)),
                ("truncated"@, JsonView::Bool(r.truncated)),
                ("truncated_count"@, num(r.truncated_count as nat)),
                ("results"@, JsonView::Array(r.matches@.map_values(|m: FindMatch| find_match_view(m)))),
            ],
        )
    }
}

fn text_json(s: &String) -> (j: Json)
    ensures
        j@ == text(s@),
{
    Json::string(s.as_str())
}

fn num_json(n: usize) -> (j: Json)
    ensures
        j@ == num(n as nat),
{
    Json::unsigned(n as u64)
}

fn line_json(n: u32) -> (j: Json)
    ensures
        j@ == num(n as nat),
{
    Json::unsigned(n as u64)
}

fn opt_text_json(o: &Option<String>) -> (j: Json)
    ensures
        j@ == opt_text(*o),
{
    match o {
        Some(s) => Json::string(s.as_str()),
        None => Json::Null,
    }
}

fn caller_json(c: &CallerInfo) -> (j: Json)
    ensures
        j@ == caller_view(*c),
{
    let mut f: Vec<(String, Json)> = Vec::new();
    assert(fields_of(f@) =~= Seq::<(Seq<char>, JsonView)>::empty());
    push_field(&mut f, "name", text_json(&c.name));
    push_field(&mut f, "file", text_json(&c.file));
    push_field(&mut f, "line", line_json(c.line));
    push_field(&mut f, "resolution", text_json(&c.resolution));
    assert(fields_of(f@) =~= seq![("name"@, text(c.name@)), ("file"@, text(c.file@)), ("line"@, num(c.line as nat)), ("resolution"@, text(c.resolution@))]);
    Json::object(f)
}

fn callee_json(c: &CalleeInfo) -> (j: Json)
    ensures
        j@ == callee_view(*c),
{
    let mut f: Vec<(String, Json)> = Vec::new();
    assert(fields_of(f@) =~= Seq::<(Seq<char>, JsonView)>::empty());
    push_field(&mut f, "name", text_json(&c.name));
    push_field(&mut f, "file", opt_text_json(&c.file));
    push_field(&mut f, "resolution", text_json(&c.resolution));
    assert(fields_of(f@) =~= seq![("name"@, text(c.name@)), ("file"@, opt_text(c.file)), ("resolution"@, text(c.resolution@))]);
    Json::object(f)
}

fn find_match_json(m: &FindMatch) -> (j: Json)
    ensures
        j@ == find_match_view(*m),
{
    let mut f: Vec<(String, Json)> = Vec::new();
    assert(fields_of(f@) =~= Seq::<(Seq<char>, JsonView)>::empty());
    push_field(&mut f, "name", text_json(&m.name));
    push_field(&mut f, "file", text_json(&m.file));
    push_field(&mut f, "line", line_json(m.line));
    push_field(&mut f, "kind", text_json(&m.kind));
    push_field(&mut f, "signature", opt_text_json(&m.signature));
    push_field(&mut f, "is_public", Json::Bool(m.is_public));
    assert(fields_of(f@) =~= seq![
        ("name"@, text(m.name@)),
        ("file"@, text(m.file@)),
        ("line"@, num(m.line as nat)),
        ("kind"@, text(m.kind@)),
        ("signature"@, opt_text(m.signature)),
        ("is_public"@, JsonView::Bool(m.is_public)),
    ]);
    Json::object(f)
}

fn affected_json(n: &ImpactNode) -> (j: Json)
    ensures
        j@ == affected_view(*n),
{
    let mut f: Vec<(String, Json)> = Vec::new();
    assert(fields_of(f@) =~= Seq::<(Seq<char>, JsonView)>::empty());
    push_field(&mut f, "name", text_json(&n.name));
    push_field(&mut f, "file", text_json(&n.file));
    push_field(&mut f, "line", line_json(n.line));
    push_field(&mut f, "resolution", text_json(&n.resolution));
    push_field(&mut f, "depth", num_json(n.depth));
    assert(fields_of(f@) =~= seq![
        ("name"@, text(n.name@)),
        ("file"@, text(n.file@)),
        ("line"@, num(n.line as nat)),
        ("resolution"@, text(n.resolution@)),
        ("depth"@, num(n.depth as nat)),
    ]);
    Json::object(f)
}

fn callers_json(cs: &Vec<CallerInfo>) -> (j: Json)
    ensures
        j@ == JsonView::Array(cs@.map_values(|c: CallerInfo| caller_view(c))),
{
    let mut items: Vec<Json> = Vec::new();
    let mut k: usize = 0;
    while k < cs.len()
        invariant
            k <= cs@.len(),
            views_of(items@) == cs@.take(k as int).map_values(|c: CallerInfo| caller_view(c)),
        decreases cs@.len() - k,
    {
        push_item(&mut items, caller_json(&cs[k]));
        assert(cs@.take(k + 1) =~= cs@.take(k as int).push(cs@[k as int]));
        assert(views_of(items@) =~= cs@.take(k + 1).map_values(|c: CallerInfo| caller_view(c)));
        k = k + 1;
    }
    assert(cs@.take(cs@.len() as int) =~= cs@);
    Json::array(items)
}

fn callees_json(cs: &Vec<CalleeInfo>) -> (j: Json)
    ensures
        j@ == JsonView::Array(cs@.map_values(|c: CalleeInfo| callee_view(c))),
{
    let mut items: Vec<Json> = Vec::new();
    let mut k: usize = 0;
    while k < cs.len()
        invariant
            k <= cs@.len(),
            views_of(items@) == cs@.take(k as int).map_values(|c: CalleeInfo| callee_view(c)),
        decreases cs@.len() - k,
    {
        push_item(&mut items, callee_json(&cs[k]));
        assert(cs@.take(k + 1) =~= cs@.take(k as int).push(cs@[k as int]));
        assert(views_of(items@) =~= cs@.take(k + 1).map_values(|c: CalleeInfo| callee_view(c)));
        k = k + 1;
    }
    assert(cs@.take(cs@.len() as int) =~= cs@);
    Json::array(items)
}

fn affected_list_json(ns: &Vec<ImpactNode>) -> (j: Json)
    ensures
        j@ == JsonView::Array(ns@.map_values(|n: ImpactNode| affected_view(n))),
{
    let mut items: Vec<Json> = Vec::new();
    let mut k: usize = 0;
    while k < ns.len()
        invariant
            k <= ns@.len(),
            views_of(items@) == ns@.take(k as int).map_values(|n: ImpactNode| affected_view(n)),
        decreases ns@.len() - k,
    {
        push_item(&mut items, affected_json(&ns[k]));
        assert(ns@.take(k + 1) =~= ns@.take(k as int).push(ns@[k as int]));
        assert(views_of(items@) =~= ns@.take(k + 1).map_values(|n: ImpactNode| affected_view(n)));
        k = k + 1;
    }
    assert(ns@.take(ns@.len() as int) =~= ns@);
    Json::array(items)
}

fn symbol_result_json(r: &SymbolResult) -> (j: Json)
    ensures
        j@ == symbol_result_view(*r),
{
    let mut f: Vec<(String, Json)> = Vec::new();
    assert(fields_of(f@) =~= Seq::<(Seq<char>, JsonView)>::empty());
    push_field(&mut f, "name", text_json(&r.symbol.name));
    push_field(&mut f, "file", text_json(&r.symbol.file));
    push_field(&mut f, "line", line_json(r.symbol.line));
    push_field(&mut f, "kind", text_json(&r.symbol.kind));
    push_field(&mut f, "signature", opt_text_json(&r.symbol.signature));
    push_field(&mut f, "is_public", Json::Bool(r.symbol.is_public));
    push_field(&mut f, "callers", callers_json(&r.callers));
    push_field(&mut f, "callees", callees_json(&r.callees));
    push_field(&mut f, "truncated", Json::Bool(r.truncated));
    push_field(&mut f, "truncated_count", num_json(r.truncated_count));
    assert(fields_of(f@) =~= seq![
        ("name"@, text(r.symbol.name@)),
        ("file"@, text(r.symbol.file@)),
        ("line"@, num(r.symbol.line as nat)),
        ("kind"@, text(r.symbol.kind@)),
        ("signature"@, opt_text(r.symbol.signature)),
        ("is_public"@, JsonView::Bool(r.symbol.is_public)),
        ("callers"@, JsonView::Array(r.callers@.map_values(|c: CallerInfo| caller_view(c)))),
        ("callees"@, JsonView::Array(r.callees@.map_values(|c: CalleeInfo| callee_view(c)))),
        ("truncated"@, JsonView::Bool(r.truncated)),
        ("truncated_count"@, num(r.truncated_count as nat)),
    ]);
    Json::object(f)
}

fn impact_result_json(r: &ImpactResult) -> (j: Json)
    ensures
        j@ == impact_result_view(*r),
{
    let mut f: Vec<(String, Json)> = Vec::new();
    assert(fields_of(f@) =~= Seq::<(Seq<char>, JsonView)>::empty());
    push_field(&mut f, "target_name", text_json(&r.target.name));
    push_field(&mut f, "target_file", text_json(&r.target.file));
    push_field(&mut f, "target_line", line_json(r.target.line));
    push_field(&mut f, "truncated", Json::Bool(r.truncated));
    push_field(&mut f, "truncated_count", num_json(r.truncated_count));
    push_field(&mut f, "max_depth_reached", num_json(r.max_depth_reached));
    push_field(&mut f, "affected_count", num_json(r.affected.len()));
    push_field(&mut f, "affected", affected_list_json(&r.affected));
    assert(fields_of(f@) =~= seq![
        ("target_name"@, text(r.target.name@)),
        ("target_file"@, text(r.target.file@)),
        ("target_line"@, num(r.target.line as nat)),
        ("truncated"@, JsonView::Bool(r.truncated)),
        ("truncated_count"@, num(r.truncated_count as nat)),
        ("max_depth_reached"@, num(r.max_depth_reached as nat)),
        ("affected_count"@, num(r.affected@.len())),
        ("affected"@, JsonView::Array(r.affected@.map_values(|n: ImpactNode| affected_view(n)))),
    ]);
    Json::object(f)
}

fn join3(a: &str, b: &str, c: &str) -> (s: String)
    ensures
        s@ == a@ + b@ + c@,
{
    let mut s = String::from_str(a);
    s.append(b);
    s.append(c);
    s
}

fn not_found_json(query: &str, message: String) -> (j: Json)
    ensures
        j@ == JsonView::Object(
            seq![
                ("query"@, text(query@)),
                ("found"@, JsonView::Bool(false)),
                ("count"@, num(0)),
                ("results"@, JsonView::Array(Seq::empty())),
                ("message"@, text(message@)),
            ],
        ),
{
    let empty: Vec<Json> = Vec::new();
    assert(views_of(empty@) =~= Seq::<JsonView>::empty());
    let mut f: Vec<(String, Json)> = Vec::new();
    assert(fields_of(f@) =~= Seq::<(Seq<char>, JsonView)>::empty());
    push_field(&mut f, "query", Json::string(query));
    push_field(&mut f, "found", Json::Bool(false));
    push_field(&mut f, "count", num_json(0));
    push_field(&mut f, "results", Json::array(empty));
    push_field(&mut f, "message", text_json(&message));
    assert(fields_of(f@) =~= seq![
        ("query"@, text(query@)),
        ("found"@, JsonView::Bool(false)),
        ("count"@, num(0)),
        ("results"@, JsonView::Array(Seq::empty())),
        ("message"@, text(message@)),
    ]);
    Json::object(f)
}

fn found_json(query: &str, results: Vec<Json>) -> (j: Json)
    ensures
        j@ == found_view(query@, views_of(results@)),
{
    proof {
        crate::mcp::json::lemma_views_len(results@);
    }
    let n = results.len();
    let ghost rv = views_of(results@);
    let mut f: Vec<(String, Json)> = Vec::new();
    assert(fields_of(f@) =~= Seq::<(Seq<char>, JsonView)>::empty());
    push_field(&mut f, "query", Json::string(query));
    push_field(&mut f, "found", Json::Bool(true));
    push_field(&mut f, "count", num_json(n));
    push_field(&mut f, "results", Json::array(results));
    assert(fields_of(f@) =~= seq![
        ("query"@, text(query@)),
        ("found"@, JsonView::Bool(true)),
        ("count"@, num(rv.len())),
        ("results"@, JsonView::Array(rv)),
    ]);
    Json::object(f)
}

/// The `get_symbol` answer for `name` and its results.
pub fn get_symbol_payload(name: &str, results: &Vec<SymbolResult>) -> (j: Json)
    ensures
        j@ == get_symbol_payload_view(name@, results@),
{
    if results.len() == 0 {
        return not_found_json(name, join3("no symbol named \"", name, "\" found in the index"));
    }
    let mut items: Vec<Json> = Vec::new();
    let mut k: usize = 0;
    while k < results.len()
        invariant
            k <= results@.len(),
            views_of(items@) == results@.take(k as int).map_values(|r: SymbolResult| symbol_result_view(r)),
        decreases results@.len() - k,
    {
        push_item(&mut items, symbol_result_json(&results[k]));
        assert(results@.take(k + 1) =~= results@.take(k as int).push(results@[k as int]));
        assert(views_of(items@) =~= results@.take(k + 1).map_values(|r: SymbolResult| symbol_result_view(r)));
        k = k + 1;
    }
    assert(results@.take(results@.len() as int) =~= results@);
    found_json(name, items)
}

/// The `impact` answer for `name` and its results.
pub fn impact_payload(name: &str, results: &Vec<ImpactResult>) -> (j: Json)
    ensures
        j@ == impact_payload_view(name@, results@),
{
    if results.len() == 0 {
        return not_found_json(name, join3("no symbol named \"", name, "\" found in the index"));
    }
    let mut items: Vec<Json> = Vec::new();
    let mut k: usize = 0;
    while k < results.len()
        invariant
            k <= results@.len(),
            views_of(items@) == results@.take(k as int).map_values(|r: ImpactResult| impact_result_view(r)),
        decreases results@.len() - k,
    {
        push_item(&mut items, impact_result_json(&results[k]));
        assert(results@.take(k + 1) =~= results@.take(k as int).push(results@[k as int]));
        assert(views_of(items@) =~= results@.take(k + 1).map_values(|r: ImpactResult| impact_result_view(r)));
        k = k + 1;
    }
    assert(results@.take(results@.len() as int) =~= results@);
    found_json(name, items)
}

/// The `find` answer for `query` and its result.
pub fn find_payload(query: &str, result: &FindResult) -> (j: Json)
    ensures
        j@ == find_payload_view(query@, *result),
{
    let empty: Vec<Json> = Vec::new();
    assert(views_of(empty@) =~= Seq::<JsonView>::empty());
    let mut f: Vec<(String, Json)> = Vec::new();
    assert(fields_of(f@) =~= Seq::<(Seq<char>, JsonView)>::empty());
    push_field(&mut f, "query", Json::string(query));
    if result.total_matches == 0 {
        push_field(&mut f, "found", Json::Bool(false));
        push_field(&mut f, "count", num_json(0));
        push_field(&mut f, "total_matches", num_json(0));
        push_field(&mut f, "truncated", Json::Bool(result.truncated));
        push_field(&mut f, "truncated_count", num_json(result.truncated_count));
        push_field(&mut f, "results", Json::array(empty));
        push_field(&mut f, "message", Json::string(join3("no symbol matching \"", query, "\" found in the index").as_str()));
        assert(fields_of(f@) =~= seq![
            ("query"@, text(query@)),
            ("found"@, JsonView::Bool(false)),
            ("count"@, num(0)),
            ("total_matches"@, num(0)),
            ("truncated"@, JsonView::Bool(result.truncated)),
            ("truncated_count"@, num(result.truncated_count as nat)),
            ("results"@, JsonView::Array(Seq::empty())),
            ("message"@, text("no symbol matching \""@ + query@ + "\" found in the index"@)),
        ]);
        return Json::object(f);
    }
    if result.matches.len() == 0 {
        let mut message = decimal_string(result.total_matches as u64);
        message.append(" symbol(s) matched \"");
        message.append(query);
        message.append("\" but none fit within the token budget; increase token_budget to see them");
        push_field(&mut f, "found", Json::Bool(true));
        push_field(&mut f, "count", num_json(0));
        push_field(&mut f, "total_matches", num_json(result.total_matches));
        push_field(&mut f, "truncated", Json::Bool(result.truncated));
        push_field(&mut f, "truncated_count", num_json(result.truncated_count));
        push_field(&mut f, "results", Json::array(empty));
        push_field(&mut f, "message", text_json(&message));
        assert(fields_of(f@) =~= seq![
            ("query"@, text(query@)),
            ("found"@, JsonView::Bool(true)),
            ("count"@, num(0)),
            ("total_matches"@, num(result.total_matches as nat)),
            ("truncated"@, JsonView::Bool(result.truncated)),
            ("truncated_count"@, num(result.truncated_count as nat)),
            ("results"@, JsonView::Array(Seq::empty())),
            ("message"@, text(decimal_text(result.total_matches as nat) + " symbol(s) matched \""@ + query@
                + "\" but none fit within the token budget; increase token_budget to see them"@)),
        ]);
        return Json::object(f);
    }
    let mut items: Vec<Json> = Vec::new();
    let mut k: usize = 0;
    while k < result.matches.len()
        invariant
            k <= result.matches@.len(),
            views_of(items@) == result.matches@.take(k as int).map_values(|m: FindMatch| find_match_view(m)),
        decreases result.matches@.len() - k,
    {
        push_item(&mut items, find_match_json(&result.matches[k]));
        assert(result.matches@.take(k + 1) =~= result.matches@.take(k as int).push(result.matches@[k as int]));
        assert(views_of(items@) =~= result.matches@.take(k + 1).map_values(|m: FindMatch| find_match_view(m)));
        k = k + 1;
    }
    assert(result.matches@.take(result.matches@.len() as int) =~= result.matches@);
    push_field(&mut f, "found", Json::Bool(true));
    push_field(&mut f, "count", num_json(result.matches.len()));
    push_field(&mut f, "total_matches", num_json(result.total_matches));
    push_field(&mut f, "truncated", Json::Bool(result.truncated));
    push_field(&mut f, "truncated_count", num_json(result.truncated_count));
    let ghost iv = views_of(items@);
    push_field(&mut f, "results", Json::array(items));
    assert(fields_of(f@) =~= seq![
        ("query"@, text(query@)),
        ("found"@, JsonView::Bool(true)),
        ("count"@, num(result.matches@.len())),
        ("total_matches"@, num(result.total_matches as nat)),
        ("truncated"@, JsonView::Bool(result.truncated)),
        ("truncated_count"@, num(result.truncated_count as nat)),
        ("results"@, JsonView::Array(iv)),
    ]);
    Json::object(f)
}

} // verus!
