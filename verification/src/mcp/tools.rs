use vstd::prelude::*;

use crate::mcp::json::{absent_or_null, as_str_spec, as_u64_spec, fields_of, get_field, push_field, push_item, views_of, Json, JsonView};

verus! {

/// The most matches a `find` call may ask for.
pub const MAX_FIND_LIMIT: usize = 200;

/// Why a tool call failed: bad arguments, or a failure inside the index.
#[derive(Debug, Clone, PartialEq, Eq)]
pub enum ToolCallError {
    InvalidParams(String),
    Internal(String),
}

/// `r` failed with invalid arguments, with message `m`.
pub open spec fn invalid_params_is<T>(r: Result<T, ToolCallError>, m: Seq<char>) -> bool {
    r matches Err(ToolCallError::InvalidParams(e)) && e@ == m
}

/// An invalid-arguments error with message `m`.
fn invalid(m: String) -> (e: ToolCallError)
    ensures
        e == ToolCallError::InvalidParams(m),
{
    ToolCallError::InvalidParams(m)
}

/// `a` then `b` then `c`, as one string.
fn join3(a: &str, b: &str, c: &str) -> (s: String)
    ensures
        s@ == a@ + b@ + c@,
{
    let mut s = String::from_str(a);
    s.append(b);
    s.append(c);
    s
}

/// A required non-empty string argument.
pub open spec fn required_string_spec(args: JsonView, field: Seq<char>) -> Result<Seq<char>, Seq<char>> {
    match as_str_spec(get_field(args, field)) {
        Some(v) => if v.len() > 0 {
            Ok(v)
        } else {
            Err("argument \""@ + field + "\" must not be empty"@)
        },
        None => Err("missing required argument \""@ + field + "\""@),
    }
}

/// A required non-empty string argument.
pub fn required_string(arguments: &Json, field: &str) -> (r: Result<String, ToolCallError>)
    ensures
        match required_string_spec(arguments@, field@) {
            Ok(v) => r matches Ok(s) && s@ == v,
            Err(m) => invalid_params_is(r, m),
        },
{
    let value = match arguments.get(field) {
        Some(v) => v.as_str(),
        None => None,
    };
    match value {
        Some(v) => if v.unicode_len() > 0 {
            Ok(String::from_str(v))
        } else {
            Err(invalid(join3("argument \"", field, "\" must not be empty")))
        },
        None => Err(invalid(join3("missing required argument \"", field, "\""))),
    }
}

/// An optional string argument: absent or `null` is none.
pub open spec fn optional_string_spec(args: JsonView, field: Seq<char>) -> Result<Option<Seq<char>>, Seq<char>> {
    match get_field(args, field) {
        None => Ok(None),
        Some(JsonView::Null) => Ok(None),
        Some(JsonView::Str(v)) => Ok(Some(v)),
        Some(_) => Err("argument \""@ + field + "\" must be a string"@),
    }
}

/// An optional string argument.
pub fn optional_string(arguments: &Json, field: &str) -> (r: Result<Option<String>, ToolCallError>)
    ensures
        match optional_string_spec(arguments@, field@) {
            Ok(None) => r matches Ok(None),
            Ok(Some(v)) => r matches Ok(Some(s)) && s@ == v,
            Err(m) => invalid_params_is(r, m),
        },
{
    match arguments.get(field) {
        None => Ok(None),
        Some(Json::Null) => Ok(None),
        Some(Json::Str(v)) => Ok(Some(String::from_str(v.as_str()))),
        Some(_) => Err(invalid(join3("argument \"", field, "\" must be a string"))),
    }
}

/// The token budget argument, `default` where absent or `null`.
pub open spec fn token_budget_spec(args: JsonView, default: usize) -> Result<usize, Seq<char>> {
    let v = get_field(args, "token_budget"@);
    if absent_or_null(v) {
        Ok(default)
    } else {
        match as_u64_spec(v) {
            Some(b) => Ok(b as usize),
            None => Err("argument \"token_budget\" must be a non-negative number"@),
        }
    }
}

/// The token budget argument.
pub fn optional_token_budget(arguments: &Json, default: usize) -> (r: Result<usize, ToolCallError>)
    ensures
        match token_budget_spec(arguments@, default) {
            Ok(b) => r == Ok::<usize, ToolCallError>(b),
            Err(m) => invalid_params_is(r, m),
        },
{
    match arguments.get("token_budget") {
        None => Ok(default),
        Some(v) => if v.is_null() {
            Ok(default)
        } else {
            match v.as_u64() {
                Some(b) => Ok(b as usize),
                None => Err(invalid(String::from_str("argument \"token_budget\" must be a non-negative number"))),
            }
        },
    }
}

/// The line argument: absent or `null` is none; else a number within `u32`.
pub open spec fn line_spec(args: JsonView) -> Result<Option<u32>, Seq<char>> {
    let v = get_field(args, "line"@);
    if absent_or_null(v) {
        Ok(None)
    } else {
        match as_u64_spec(v) {
            Some(l) => if l <= u32::MAX {
                Ok(Some(l as u32))
            } else {
                Err("argument \"line\" must be a non-negative number"@)
            },
            None => Err("argument \"line\" must be a non-negative number"@),
        }
    }
}

/// The line argument.
pub fn optional_line(arguments: &Json) -> (r: Result<Option<u32>, ToolCallError>)
    ensures
        match line_spec(arguments@) {
            Ok(l) => r == Ok::<Option<u32>, ToolCallError>(l),
            Err(m) => invalid_params_is(r, m),
        },
{
    match arguments.get("line") {
        None => Ok(None),
        Some(v) => if v.is_null() {
            Ok(None)
        } else {
            match v.as_u64() {
                Some(l) => if l <= 4294967295u64 {
                    Ok(Some(l as u32))
                } else {
                    Err(invalid(String::from_str("argument \"line\" must be a non-negative number")))
                },
                None => Err(invalid(String::from_str("argument \"line\" must be a non-negative number"))),
            }
        },
    }
}

/// The limit argument, `default` where absent or `null`; at most
/// `MAX_FIND_LIMIT`.
pub open spec fn limit_spec(args: JsonView, default: usize) -> Result<usize, Seq<char>> {
    let v = get_field(args, "limit"@);
    if absent_or_null(v) {
        Ok(default)
    } else {
        match as_u64_spec(v) {
            Some(l) => if l > MAX_FIND_LIMIT {
                Err("argument \"limit\" must not exceed 200"@)
            } else {
                Ok(l as usize)
            },
            None => Err("argument \"limit\" must be a non-negative number"@),
        }
    }
}

/// The limit argument.
pub fn optional_limit(arguments: &Json, default: usize) -> (r: Result<usize, ToolCallError>)
    ensures
        match limit_spec(arguments@, default) {
            Ok(l) => r == Ok::<usize, ToolCallError>(l),
            Err(m) => invalid_params_is(r, m),
        },
{
    match arguments.get("limit") {
        None => Ok(default),
        Some(v) => if v.is_null() {
            Ok(default)
        } else {
            match v.as_u64() {
                Some(l) => if l > 200u64 {
                    Err(invalid(String::from_str("argument \"limit\" must not exceed 200")))
                } else {
                    Ok(l as usize)
                },
                None => Err(invalid(String::from_str("argument \"limit\" must be a non-negative number"))),
            }
        },
    }
}

/// The arguments of a `get_symbol` call.
#[derive(Debug, Clone, PartialEq, Eq)]
pub struct GetSymbolArgs {
    pub name: String,
    pub file: Option<String>,
    pub line: Option<u32>,
    pub token_budget: usize,
}

/// The arguments of an `impact` call.
#[derive(Debug, Clone, PartialEq, Eq)]
pub struct ImpactArgs {
    pub name: String,
    pub file: Option<String>,
    pub token_budget: usize,
}

/// The arguments of a `find` call.
#[derive(Debug, Clone, PartialEq, Eq)]
pub struct FindArgs {
    pub query: String,
    pub limit: usize,
    pub token_budget: usize,
}

/// An optional string's characters.
pub open spec fn opt_view(o: Option<String>) -> Option<Seq<char>> {
    match o {
        Some(s) => Some(s@),
        None => None,
    }
}

/// The first error among the checks of a `get_symbol` call, in the order the
/// arguments are read: `name`, `file`, `line`, `token_budget`, then `line`
/// without `file`.
pub open spec fn get_symbol_error(args: JsonView, default_budget: usize) -> Option<Seq<char>> {
    match required_string_spec(args, "name"@) {
        Err(m) => Some(m),
        Ok(_) => match optional_string_spec(args, "file"@) {
            Err(m) => Some(m),
            Ok(file) => match line_spec(args) {
                Err(m) => Some(m),
                Ok(line) => match token_budget_spec(args, default_budget) {
                    Err(m) => Some(m),
                    Ok(_) => if line is Some && file is None {
                        Some("argument \"line\" requires \"file\" to also be set"@)
                    } else {
                        None
                    },
                },
            },
        },
    }
}

/// Reads the arguments of a `get_symbol` call.
pub fn get_symbol_args(arguments: &Json, default_budget: usize) -> (r: Result<GetSymbolArgs, ToolCallError>)
    ensures
        match get_symbol_error(arguments@, default_budget) {
            Some(m) => invalid_params_is(r, m),
            None => r matches Ok(a) && required_string_spec(arguments@, "name"@) == Ok::<Seq<char>, Seq<char>>(a.name@)
                && optional_string_spec(arguments@, "file"@) == Ok::<Option<Seq<char>>, Seq<char>>(opt_view(a.file))
                && line_spec(arguments@) == Ok::<Option<u32>, Seq<char>>(a.line)
                && token_budget_spec(arguments@, default_budget) == Ok::<usize, Seq<char>>(a.token_budget),
        },
{
    let name = match required_string(arguments, "name") {
        Ok(n) => n,
        Err(e) => {
            return Err(e);
        },
    };
    let file = match optional_string(arguments, "file") {
        Ok(f) => f,
        Err(e) => {
            return Err(e);
        },
    };
    let line = match optional_line(arguments) {
        Ok(l) => l,
        Err(e) => {
            return Err(e);
        },
    };
    let token_budget = match optional_token_budget(arguments, default_budget) {
        Ok(b) => b,
        Err(e) => {
            return Err(e);
        },
    };
    if line.is_some() && file.is_none() {
        return Err(invalid(String::from_str("argument \"line\" requires \"file\" to also be set")));
    }
    Ok(GetSymbolArgs { name, file, line, token_budget })
}

/// The first error among the checks of an `impact` call: `name`, `file`,
/// then `token_budget`.
pub open spec fn impact_error(args: JsonView, default_budget: usize) -> Option<Seq<char>> {
    match required_string_spec(args, "name"@) {
        Err(m) => Some(m),
        Ok(_) => match optional_string_spec(args, "file"@) {
            Err(m) => Some(m),
            Ok(_) => match token_budget_spec(args, default_budget) {
                Err(m) => Some(m),
                Ok(_) => None,
            },
        },
    }
}

/// Reads the arguments of an `impact` call.
pub fn impact_args(arguments: &Json, default_budget: usize) -> (r: Result<ImpactArgs, ToolCallError>)
    ensures
        match impact_error(arguments@, default_budget) {
            Some(m) => invalid_params_is(r, m),
            None => r matches Ok(a) && required_string_spec(arguments@, "name"@) == Ok::<Seq<char>, Seq<char>>(a.name@)
                && optional_string_spec(arguments@, "file"@) == Ok::<Option<Seq<char>>, Seq<char>>(opt_view(a.file))
                && token_budget_spec(arguments@, default_budget) == Ok::<usize, Seq<char>>(a.token_budget),
        },
{
    let name = match required_string(arguments, "name") {
        Ok(n) => n,
        Err(e) => {
            return Err(e);
        },
    };
    let file = match optional_string(arguments, "file") {
        Ok(f) => f,
        Err(e) => {
            return Err(e);
        },
    };
    let token_budget = match optional_token_budget(arguments, default_budget) {
        Ok(b) => b,
        Err(e) => {
            return Err(e);
        },
    };
    Ok(ImpactArgs { name, file, token_budget })
}

/// The first error among the checks of a `find` call: `query`, `limit`,
/// then `token_budget`.
pub open spec fn find_error(args: JsonView, default_limit: usize, default_budget: usize) -> Option<Seq<char>> {
    match required_string_spec(args, "query"@) {
        Err(m) => Some(m),
        Ok(_) => match limit_spec(args, default_limit) {
            Err(m) => Some(m),
            Ok(_) => match token_budget_spec(args, default_budget) {
                Err(m) => Some(m),
                Ok(_) => None,
            },
        },
    }
}

/// Reads the arguments of a `find` call.
pub fn find_args(arguments: &Json, default_limit: usize, default_budget: usize) -> (r: Result<FindArgs, ToolCallError>)
    ensures
        match find_error(arguments@, default_limit, default_budget) {
            Some(m) => invalid_params_is(r, m),
            None => r matches Ok(a) && required_string_spec(arguments@, "query"@) == Ok::<Seq<char>, Seq<char>>(a.query@)
                && limit_spec(arguments@, default_limit) == Ok::<usize, Seq<char>>(a.limit)
                && token_budget_spec(arguments@, default_budget) == Ok::<usize, Seq<char>>(a.token_budget),
        },
{
    let query = match required_string(arguments, "query") {
        Ok(q) => q,
        Err(e) => {
            return Err(e);
        },
    };
    let limit = match optional_limit(arguments, default_limit) {
        Ok(l) => l,
        Err(e) => {
            return Err(e);
        },
    };
    let token_budget = match optional_token_budget(arguments, default_budget) {
        Ok(b) => b,
        Err(e) => {
            return Err(e);
        },
    };
    Ok(FindArgs { query, limit, token_budget })
}

/// Tool documentation text.
pub const GET_SYMBOL_DESCRIPTION: &'static str = "Look up a single symbol by name in the local corbel index and return where it is defined (file, line, signature), everything that calls it (callers), and everything it calls (callees). Every caller and callee comes with a `resolution` field showing exactly how corbel resolved that reference to a specific definition (e.g. same-file, scoped, global-unique) rather than a guess from text matching — this is what makes the result trustworthy for navigation and refactoring, unlike a grep/text search which can't tell you if a match is actually the same symbol. Use this tool when you need to jump to a function's or type's definition, inspect its signature, or see who calls it and what it calls, before editing it. If `name` (optionally narrowed by `file`) still matches more than one symbol — e.g. overloaded declarations in the same file — pass `line` as well; the `find` tool's results already carry the exact `name`/`file`/`line` triple needed to pin down one match. The response can be truncated to fit within a token budget; when it is, `truncated` is set to true and `truncated_count` reports how many additional callers and callees together were left out. The budget is divided evenly across every matched symbol first (so if `name` is ambiguous and returns several results, no single match can consume the whole budget and starve the others), then each match's own share is split evenly between its callers and its callees (so a hot function's huge caller list can't crowd out its callees, or vice versa). The index is built ahead of time by `corbel index` and only reflects the state of the repository as of the last index run.";

/// Tool documentation text.
pub const GET_SYMBOL_NAME_DESCRIPTION: &'static str = "The symbol name to look up (function, method, type, etc.).";

/// Tool documentation text.
pub const FILE_DESCRIPTION: &'static str = "Optional file path to disambiguate when multiple symbols share this name.";

/// Tool documentation text.
pub const LINE_DESCRIPTION: &'static str = "Optional definition line to disambiguate further, for when `name` and `file` alone still match more than one symbol (e.g. overloaded declarations in the same file). Requires `file` to also be set.";

/// Tool documentation text.
pub const GET_SYMBOL_BUDGET_DESCRIPTION: &'static str = "Optional cap on the size of the response, in estimated tokens. Divided evenly across every matched symbol first, then each match's share is split evenly between its callers and callees. Defaults to corbel's built-in budget if omitted.";

/// Tool documentation text.
pub const IMPACT_DESCRIPTION: &'static str = "Trace the blast radius of changing a symbol: starting from the given symbol, walk the reverse call graph — direct callers, their callers, and so on across multiple hops — and return every symbol that could be affected by a change to it. Each affected symbol comes with a `depth` field (how many hops away it is) and a `resolution` field showing how corbel resolved that call edge, so results are grounded in real, resolved call relationships rather than a text search for the symbol's name (which cannot follow more than one hop and cannot tell a real call from a coincidental name match). Use this tool before refactoring — e.g. changing a function's signature or behavior — to find every place in the codebase that may need to change as a result, including indirect callers that a single-hop \"find references\" would miss. The response can be truncated to fit within a token budget; when it is, `truncated` is set to true and `truncated_count` reports how many additional affected symbols were left out. Results come from the local corbel index built by `corbel index` and only reflect the repository as of the last index run.";

/// Tool documentation text.
pub const IMPACT_NAME_DESCRIPTION: &'static str = "The symbol name to start the impact analysis from.";

/// Tool documentation text.
pub const BUDGET_DESCRIPTION: &'static str = "Optional cap on the size of the response, in estimated tokens. Defaults to corbel's built-in budget if omitted.";

/// Tool documentation text.
pub const FIND_DESCRIPTION: &'static str = "Search the local corbel index for symbols whose name matches a query, for when you don't know the exact symbol name to pass to `get_symbol`. Matching is substring-based and case-insensitive, ranked so exact name matches come first, then names starting with the query, then names merely containing it; within each of those tiers results are ordered by name, then file, then line for a stable, repeatable order. Case-insensitivity only folds ASCII letters (SQLite's default `LIKE` behavior) — it will not match differently-cased Unicode identifiers (e.g. a Python or JavaScript identifier using non-ASCII letters), so queries against such names must match the identifier's actual case. Each match reports `name`, `file`, and `line`, which together are the exact triple `get_symbol` needs to pin down that one symbol even when several symbols elsewhere share its name. This tool does not resolve or return call relationships — use `get_symbol` or `impact` on a specific match for that. The response can be truncated to fit within `limit` and a token budget; when it is, `truncated` is set to true and `truncated_count` reports how many further matches were left out. Results come from the local corbel index built by `corbel index` and only reflect the repository as of the last index run.";

/// Tool documentation text.
pub const QUERY_DESCRIPTION: &'static str = "Substring to search for in symbol names (case-insensitive for ASCII).";

/// Tool documentation text.
pub const LIMIT_DESCRIPTION: &'static str = "Optional cap on the number of matches returned, from 0 up to corbel's hard maximum of 200 (requests above 200 are rejected, not silently reduced). Defaults to corbel's built-in limit if omitted.";

/// A schema property of type `ty` described by `desc`.
pub open spec fn prop_view(ty: Seq<char>, desc: Seq<char>) -> JsonView {
    JsonView::Object(seq![("type"@, JsonView::Str(ty)), ("description"@, JsonView::Str(desc))])
}

/// An object schema with the given properties and one required property.
pub open spec fn schema_view(props: Seq<(Seq<char>, JsonView)>, required: Seq<char>) -> JsonView {
    JsonView::Object(
        seq![
            ("type"@, JsonView::Str("object"@)),
            ("properties"@, JsonView::Object(props)),
            ("required"@, JsonView::Array(seq![JsonView::Str(required)])),
        ],
    )
}

/// A tool: its name, description and input schema.
pub open spec fn tool_view(name: Seq<char>, desc: Seq<char>, schema: JsonView) -> JsonView {
    JsonView::Object(seq![("name"@, JsonView::Str(name)), ("description"@, JsonView::Str(desc)), ("inputSchema"@, schema)])
}

/// The tools the server offers: `get_symbol`, `impact` and `find`.
pub open spec fn tools_view() -> Seq<JsonView> {
    seq![
        tool_view(
            "get_symbol"@,
            GET_SYMBOL_DESCRIPTION@,
            schema_view(
                seq![
                    ("name"@, prop_view("string"@, GET_SYMBOL_NAME_DESCRIPTION@)),
                    ("file"@, prop_view("string"@, FILE_DESCRIPTION@)),
                    ("line"@, prop_view("number"@, LINE_DESCRIPTION@)),
                    ("token_budget"@, prop_view("number"@, GET_SYMBOL_BUDGET_DESCRIPTION@)),
                ],
                "name"@,
            ),
        ),
        tool_view(
            "impact"@,
            IMPACT_DESCRIPTION@,
            schema_view(
                seq![
                    ("name"@, prop_view("string"@, IMPACT_NAME_DESCRIPTION@)),
                    ("file"@, prop_view("string"@, FILE_DESCRIPTION@)),
                    ("token_budget"@, prop_view("number"@, BUDGET_DESCRIPTION@)),
                ],
                "name"@,
            ),
        ),
        tool_view(
            "find"@,
            FIND_DESCRIPTION@,
            schema_view(
                seq![
                    ("query"@, prop_view("string"@, QUERY_DESCRIPTION@)),
                    ("limit"@, prop_view("number"@, LIMIT_DESCRIPTION@)),
                    ("token_budget"@, prop_view("number"@, BUDGET_DESCRIPTION@)),
                ],
                "query"@,
            ),
        ),
    ]
}

fn prop(ty: &str, desc: &str) -> (j: Json)
    ensures
        j@ == prop_view(ty@, desc@),
{
    let mut f: Vec<(String, Json)> = Vec::new();
    assert(fields_of(f@) =~= Seq::<(Seq<char>, JsonView)>::empty());
    push_field(&mut f, "type", Json::string(ty));
    push_field(&mut f, "description", Json::string(desc));
    assert(fields_of(f@) =~= seq![("type"@, JsonView::Str(ty@)), ("description"@, JsonView::Str(desc@))]);
    Json::object(f)
}

fn schema(props: Vec<(String, Json)>, required: &str) -> (j: Json)
    ensures
        j@ == schema_view(fields_of(props@), required@),
{
    let mut req: Vec<Json> = Vec::new();
    assert(views_of(req@) =~= Seq::<JsonView>::empty());
    push_item(&mut req, Json::string(required));
    let mut f: Vec<(String, Json)> = Vec::new();
    assert(fields_of(f@) =~= Seq::<(Seq<char>, JsonView)>::empty());
    push_field(&mut f, "type", Json::string("object"));
    push_field(&mut f, "properties", Json::object(props));
    push_field(&mut f, "required", Json::array(req));
    assert(fields_of(f@) =~= seq![
        ("type"@, JsonView::Str("object"@)),
        ("properties"@, JsonView::Object(fields_of(props@))),
        ("required"@, JsonView::Array(seq![JsonView::Str(required@)])),
    ]);
    Json::object(f)
}

fn tool(name: &str, desc: &str, input_schema: Json) -> (j: Json)
    ensures
        j@ == tool_view(name@, desc@, input_schema@),
{
    let mut f: Vec<(String, Json)> = Vec::new();
    assert(fields_of(f@) =~= Seq::<(Seq<char>, JsonView)>::empty());
    push_field(&mut f, "name", Json::string(name));
    push_field(&mut f, "description", Json::string(desc));
    push_field(&mut f, "inputSchema", input_schema);
    assert(fields_of(f@) =~= seq![("name"@, JsonView::Str(name@)), ("description"@, JsonView::Str(desc@)), ("inputSchema"@, input_schema@)]);
    Json::object(f)
}

/// The tools the server offers, as listed to clients.
pub fn list_tools() -> (r: Vec<Json>)
    ensures
        views_of(r@) == tools_view(),
{
    let mut gp: Vec<(String, Json)> = Vec::new();
    assert(fields_of(gp@) =~= Seq::<(Seq<char>, JsonView)>::empty());
    push_field(&mut gp, "name", prop("string", GET_SYMBOL_NAME_DESCRIPTION));
    push_field(&mut gp, "file", prop("string", FILE_DESCRIPTION));
    push_field(&mut gp, "line", prop("number", LINE_DESCRIPTION));
    push_field(&mut gp, "token_budget", prop("number", GET_SYMBOL_BUDGET_DESCRIPTION));
    let ghost gpv = fields_of(gp@);
    let get_symbol = tool("get_symbol", GET_SYMBOL_DESCRIPTION, schema(gp, "name"));

    let mut ip: Vec<(String, Json)> = Vec::new();
    assert(fields_of(ip@) =~= Seq::<(Seq<char>, JsonView)>::empty());
    push_field(&mut ip, "name", prop("string", IMPACT_NAME_DESCRIPTION));
    push_field(&mut ip, "file", prop("string", FILE_DESCRIPTION));
    push_field(&mut ip, "token_budget", prop("number", BUDGET_DESCRIPTION));
    let ghost ipv = fields_of(ip@);
    let impact = tool("impact", IMPACT_DESCRIPTION, schema(ip, "name"));

    let mut fp: Vec<(String, Json)> = Vec::new();
    assert(fields_of(fp@) =~= Seq::<(Seq<char>, JsonView)>::empty());
    push_field(&mut fp, "query", prop("string", QUERY_DESCRIPTION));
    push_field(&mut fp, "limit", prop("number", LIMIT_DESCRIPTION));
    push_field(&mut fp, "token_budget", prop("number", BUDGET_DESCRIPTION));
    let ghost fpv = fields_of(fp@);
    let find = tool("find", FIND_DESCRIPTION, schema(fp, "query"));

    let mut r: Vec<Json> = Vec::new();
    assert(views_of(r@) =~= Seq::<JsonView>::empty());
    push_item(&mut r, get_symbol);
    push_item(&mut r, impact);
    push_item(&mut r, find);
    assert(gpv =~= seq![
        ("name"@, prop_view("string"@, GET_SYMBOL_NAME_DESCRIPTION@)),
        ("file"@, prop_view("string"@, FILE_DESCRIPTION@)),
        ("line"@, prop_view("number"@, LINE_DESCRIPTION@)),
        ("token_budget"@, prop_view("number"@, GET_SYMBOL_BUDGET_DESCRIPTION@)),
    ]);
    assert(ipv =~= seq![
        ("name"@, prop_view("string"@, IMPACT_NAME_DESCRIPTION@)),
        ("file"@, prop_view("string"@, FILE_DESCRIPTION@)),
        ("token_budget"@, prop_view("number"@, BUDGET_DESCRIPTION@)),
    ]);
    assert(fpv =~= seq![
        ("query"@, prop_view("string"@, QUERY_DESCRIPTION@)),
        ("limit"@, prop_view("number"@, LIMIT_DESCRIPTION@)),
        ("token_budget"@, prop_view("number"@, BUDGET_DESCRIPTION@)),
    ]);
    assert(views_of(r@) =~= tools_view());
    r
}

} // verus!
