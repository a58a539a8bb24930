use vstd::prelude::*;

use crate::mcp::json::{
    as_str_spec, as_u64_spec, fields_of, get_field, json_clone, lemma_json_views_index, push_field, views_of, Json,
    JsonView,
};
use crate::mcp::tools::{list_tools, tools_view, ToolCallError};
use crate::text::{str_eq, signed_decimal_text};

verus! {

/// The protocol version the server prefers.
pub const LATEST_PROTOCOL_VERSION: &'static str = "2025-06-18";

/// The protocol versions the server speaks.
pub open spec fn supported_version(v: Seq<char>) -> bool {
    v == "2025-06-18"@ || v == "2025-03-26"@ || v == "2024-11-05"@
}

/// Whether the server speaks protocol version `v`.
pub fn is_supported_version(v: &str) -> (b: bool)
    ensures
        b == supported_version(v@),
{
    str_eq(v, "2025-06-18") || str_eq(v, "2025-03-26") || str_eq(v, "2024-11-05")
}

/// The version an `initialize` request settles on: the client's where the
/// server speaks it, else the latest.
pub open spec fn negotiated_version(params: JsonView) -> Seq<char> {
    match as_str_spec(get_field(params, "protocolVersion"@)) {
        Some(v) => if supported_version(v) {
            v
        } else {
            LATEST_PROTOCOL_VERSION@
        },
        None => LATEST_PROTOCOL_VERSION@,
    }
}

/// The answer to `initialize`: the negotiated version, the tools capability,
/// and the server's name and version.
pub open spec fn initialize_view(version: Seq<char>, server_version: Seq<char>) -> JsonView {
    JsonView::Object(
        seq![
            ("protocolVersion"@, JsonView::Str(version)),
            ("capabilities"@, JsonView::Object(seq![("tools"@, JsonView::Object(Seq::empty()))])),
            ("serverInfo"@, JsonView::Object(seq![("name"@, JsonView::Str("corbel"@)), ("version"@, JsonView::Str(server_version))])),
        ],
    )
}

fn empty_object() -> (j: Json)
    ensures
        j@ == JsonView::Object(Seq::empty()),
{
    let f: Vec<(String, Json)> = Vec::new();
    assert(fields_of(f@) =~= Seq::<(Seq<char>, JsonView)>::empty());
    Json::object(f)
}

/// The answer to an `initialize` request.
pub fn handle_initialize(params: &Json, server_version: &str) -> (r: Json)
    ensures
        r@ == initialize_view(negotiated_version(params@), server_version@),
{
    let requested = match params.get("protocolVersion") {
        Some(v) => v.as_str(),
        None => None,
    };
    let version: &str = match requested {
        Some(v) => if is_supported_version(v) {
            v
        } else {
            LATEST_PROTOCOL_VERSION
        },
        None => LATEST_PROTOCOL_VERSION,
    };
    let mut caps: Vec<(String, Json)> = Vec::new();
    assert(fields_of(caps@) =~= Seq::<(Seq<char>, JsonView)>::empty());
    push_field(&mut caps, "tools", empty_object());
    let mut info: Vec<(String, Json)> = Vec::new();
    assert(fields_of(info@) =~= Seq::<(Seq<char>, JsonView)>::empty());
    push_field(&mut info, "name", Json::string("corbel"));
    push_field(&mut info, "version", Json::string(server_version));
    assert(version@ == negotiated_version(params@));
    assert(fields_of(caps@) =~= seq![("tools"@, JsonView::Object(Seq::empty()))]);
    assert(fields_of(info@) =~= seq![("name"@, JsonView::Str("corbel"@)), ("version"@, JsonView::Str(server_version@))]);
    let mut f: Vec<(String, Json)> = Vec::new();
    assert(fields_of(f@) =~= Seq::<(Seq<char>, JsonView)>::empty());
    push_field(&mut f, "protocolVersion", Json::string(version));
    push_field(&mut f, "capabilities", Json::object(caps));
    push_field(&mut f, "serverInfo", Json::object(info));
    assert(fields_of(f@) =~= seq![
        ("protocolVersion"@, JsonView::Str(negotiated_version(params@))),
        ("capabilities"@, JsonView::Object(seq![("tools"@, JsonView::Object(Seq::empty()))])),
        ("serverInfo"@, JsonView::Object(seq![("name"@, JsonView::Str("corbel"@)), ("version"@, JsonView::Str(server_version@))])),
    ]);
    Json::object(f)
}

/// The tools a `tools/call` request can name.
#[derive(Debug, Clone, Copy, PartialEq, Eq)]
pub enum ToolName {
    GetSymbol,
    Impact,
    Find,
}

/// What to do with one request line.
#[derive(Debug)]
pub enum Reply {
    /// Answer nothing (a notification).
    Silent,
    /// Answer with a result.
    Result { id: Json, result: Json },
    /// Answer with an error.
    Error { id: Json, code: i64, message: String },
    /// Run a tool over the index, then answer with what it gives.
    CallTool { id: Json, tool: ToolName, arguments: Json },
}

/// A reply as plain values.
pub enum ReplyView {
    Silent,
    Result { id: JsonView, result: JsonView },
    Error { id: JsonView, code: int, message: Seq<char> },
    CallTool { id: JsonView, tool: ToolName, arguments: JsonView },
}

impl View for Reply {
    type V = ReplyView;

    open spec fn view(&self) -> ReplyView {
        match self {
            Reply::Silent => ReplyView::Silent,
            Reply::Result { id, result } => ReplyView::Result { id: id@, result: result@ },
            Reply::Error { id, code, message } => ReplyView::Error { id: id@, code: *code as int, message: message@ },
            Reply::CallTool { id, tool, arguments } => ReplyView::CallTool { id: id@, tool: *tool, arguments: arguments@ },
        }
    }
}

/// The tool a name denotes.
pub open spec fn tool_named(name: Seq<char>) -> Option<ToolName> {
    if name == "get_symbol"@ {
        Some(ToolName::GetSymbol)
    } else if name == "impact"@ {
        Some(ToolName::Impact)
    } else if name == "find"@ {
        Some(ToolName::Find)
    } else {
        None
    }
}

/// The reply to a `tools/call` request with parameters `params`: the named
/// tool with its arguments (an empty object where there are none), or an
/// error for an unknown tool.
pub open spec fn tools_call_reply(id: JsonView, params: JsonView) -> ReplyView {
    let name = match as_str_spec(get_field(params, "name"@)) {
        Some(n) => n,
        None => Seq::empty(),
    };
    let arguments = match get_field(params, "arguments"@) {
        Some(a) => a,
        None => JsonView::Object(Seq::empty()),
    };
    match tool_named(name) {
        Some(t) => ReplyView::CallTool { id, tool: t, arguments },
        None => ReplyView::Error { id, code: -32602, message: "Unknown tool: "@ + name },
    }
}

/// The reply to one request line: `None` for a line that is not JSON.
pub open spec fn request_reply(request: Option<JsonView>, server_version: Seq<char>) -> ReplyView {
    match request {
        None => ReplyView::Error { id: JsonView::Null, code: -32700, message: "Parse error"@ },
        Some(req) => match req {
            JsonView::Object(_) => {
                let has_id = get_field(req, "id"@) is Some;
                let id = match get_field(req, "id"@) {
                    Some(i) => i,
                    None => JsonView::Null,
                };
                match as_str_spec(get_field(req, "method"@)) {
                    None => if has_id {
                        ReplyView::Error { id, code: -32600, message: "Invalid Request"@ }
                    } else {
                        ReplyView::Silent
                    },
                    Some(method) => {
                        let params = match get_field(req, "params"@) {
                            Some(p) => p,
                            None => JsonView::Null,
                        };
                        if method == "initialize"@ {
                            ReplyView::Result { id, result: initialize_view(negotiated_version(params), server_version) }
                        } else if method == "notifications/initialized"@ {
                            ReplyView::Silent
                        } else if method == "tools/list"@ {
                            ReplyView::Result { id, result: JsonView::Object(seq![("tools"@, JsonView::Array(tools_view()))]) }
                        } else if method == "tools/call"@ {
                            tools_call_reply(id, params)
                        } else if has_id {
                            ReplyView::Error { id, code: -32601, message: "Method not found: "@ + method }
                        } else {
                            ReplyView::Silent
                        }
                    },
                }
            },
            _ => ReplyView::Error { id: JsonView::Null, code: -32600, message: "Invalid Request"@ },
        },
    }
}

/// The id a reply answers, where it answers at all.
pub open spec fn reply_id(r: ReplyView) -> Option<JsonView> {
    match r {
        ReplyView::Silent => None,
        ReplyView::Result { id, .. } => Some(id),
        ReplyView::Error { id, .. } => Some(id),
        ReplyView::CallTool { id, .. } => Some(id),
    }
}

/// A reply answers the request's own id, or `null` where the request has
/// none or could not be read as a request object.
pub proof fn lemma_reply_echoes_id(request: Option<JsonView>, server_version: Seq<char>)
    ensures
        reply_id(request_reply(request, server_version)) matches Some(i) ==> (match request {
            Some(req) => match (req, get_field(req, "id"@)) {
                (JsonView::Object(_), Some(id)) => i == id,
                _ => i == JsonView::Null,
            },
            None => i == JsonView::Null,
        }),
{
    if let Some(req) = request {
        if let JsonView::Object(_) = req {
            let method = as_str_spec(get_field(req, "method"@));
            let params = match get_field(req, "params"@) {
                Some(p) => p,
                None => JsonView::Null,
            };
            let id = match get_field(req, "id"@) {
                Some(i) => i,
                None => JsonView::Null,
            };
            if method matches Some(m) && m == "tools/call"@ {
                assert(reply_id(tools_call_reply(id, params)) == Some(id));
            }
        }
    }
}

/// A request object that carries an id is always answered, unless it is the
/// `notifications/initialized` notification.
pub proof fn lemma_request_with_id_answered(req: JsonView, server_version: Seq<char>)
    requires
        req is Object,
        get_field(req, "id"@) is Some,
        as_str_spec(get_field(req, "method"@)) != Some("notifications/initialized"@),
    ensures
        !(request_reply(Some(req), server_version) is Silent),
{
    let params = match get_field(req, "params"@) {
        Some(p) => p,
        None => JsonView::Null,
    };
    let id = match get_field(req, "id"@) {
        Some(i) => i,
        None => JsonView::Null,
    };
    assert(!(tools_call_reply(id, params) is Silent));
}

fn copy_or(j: Option<&Json>, default: Json) -> (r: Json)
    ensures
        r@ == (match j {
            Some(v) => v@,
            None => default@,
        }),
{
    match j {
        Some(v) => json_clone(v),
        None => default,
    }
}

fn concat_str(a: &str, b: &str) -> (s: String)
    ensures
        s@ == a@ + b@,
{
    let mut s = String::from_str(a);
    s.append(b);
    s
}

/// The reply to a `tools/call` request.
fn tools_call(id: Json, params: &Json) -> (r: Reply)
    ensures
        r@ == tools_call_reply(id@, params@),
{
    let name: &str = match params.get("name") {
        Some(n) => match n.as_str() {
            Some(s) => s,
            None => "",
        },
        None => "",
    };
    proof {
        reveal_strlit("");
        assert(""@ =~= Seq::<char>::empty());
    }
    let arguments = copy_or(params.get("arguments"), empty_object());
    if str_eq(name, "get_symbol") {
        Reply::CallTool { id, tool: ToolName::GetSymbol, arguments }
    } else if str_eq(name, "impact") {
        Reply::CallTool { id, tool: ToolName::Impact, arguments }
    } else if str_eq(name, "find") {
        Reply::CallTool { id, tool: ToolName::Find, arguments }
    } else {
        Reply::Error { id, code: -32602, message: concat_str("Unknown tool: ", name) }
    }
}

/// Decides what to answer to one request line, given the line read as JSON
/// (`None` where it is not JSON).
pub fn handle_request(request: Option<&Json>, server_version: &str) -> (r: Reply)
    ensures
        r@ == request_reply(
            match request {
                Some(j) => Some(j@),
                None => None,
            },
            server_version@,
        ),
{
    let req = match request {
        None => {
            return Reply::Error { id: Json::Null, code: -32700, message: String::from_str("Parse error") };
        },
        Some(req) => req,
    };
    match req {
        Json::Object(_) => {},
        _ => {
            return Reply::Error { id: Json::Null, code: -32600, message: String::from_str("Invalid Request") };
        },
    }
    let id_field = req.get("id");
    let has_id = id_field.is_some();
    let id = copy_or(id_field, Json::Null);
    let method: &str = match req.get("method") {
        Some(m) => match m.as_str() {
            Some(s) => s,
            None => {
                return if has_id {
                    Reply::Error { id, code: -32600, message: String::from_str("Invalid Request") }
                } else {
                    Reply::Silent
                };
            },
        },
        None => {
            return if has_id {
                Reply::Error { id, code: -32600, message: String::from_str("Invalid Request") }
            } else {
                Reply::Silent
            };
        },
    };
    let params = copy_or(req.get("params"), Json::Null);
    if str_eq(method, "initialize") {
        Reply::Result { id, result: handle_initialize(&params, server_version) }
    } else if str_eq(method, "notifications/initialized") {
        Reply::Silent
    } else if str_eq(method, "tools/list") {
        let tools = list_tools();
        let mut f: Vec<(String, Json)> = Vec::new();
        assert(fields_of(f@) =~= Seq::<(Seq<char>, JsonView)>::empty());
        push_field(&mut f, "tools", Json::array(tools));
        assert(fields_of(f@) =~= seq![("tools"@, JsonView::Array(tools_view()))]);
        Reply::Result { id, result: Json::object(f) }
    } else if str_eq(method, "tools/call") {
        tools_call(id, &params)
    } else if has_id {
        Reply::Error { id, code: -32601, message: concat_str("Method not found: ", method) }
    } else {
        Reply::Silent
    }
}

/// The reply for the outcome of a tool call: its payload, or an error
/// (`-32602` for bad arguments, `-32603` for a failure inside the index).
pub fn tool_reply(id: Json, outcome: Result<Json, ToolCallError>) -> (r: Reply)
    ensures
        r@ == (match outcome {
            Ok(p) => ReplyView::Result { id: id@, result: p@ },
            Err(ToolCallError::InvalidParams(m)) => ReplyView::Error { id: id@, code: -32602, message: m@ },
            Err(ToolCallError::Internal(m)) => ReplyView::Error { id: id@, code: -32603, message: m@ },
        }),
{
    match outcome {
        Ok(p) => Reply::Result { id, result: p },
        Err(ToolCallError::InvalidParams(m)) => Reply::Error { id, code: -32602, message: m },
        Err(ToolCallError::Internal(m)) => Reply::Error { id, code: -32603, message: m },
    }
}

/// A JSON-RPC success response.
pub open spec fn success_view(id: JsonView, result: JsonView) -> JsonView {
    JsonView::Object(seq![("jsonrpc"@, JsonView::Str("2.0"@)), ("id"@, id), ("result"@, result)])
}

/// A JSON-RPC error response.
pub open spec fn error_view(id: JsonView, code: int, message: Seq<char>) -> JsonView {
    JsonView::Object(
        seq![
            ("jsonrpc"@, JsonView::Str("2.0"@)),
            ("id"@, id),
            ("error"@, JsonView::Object(seq![("code"@, JsonView::Number(signed_decimal_text(code))), ("message"@, JsonView::Str(message))])),
        ],
    )
}

/// The response a reply is sent as; nothing for a silent reply or a tool
/// call not yet run.
pub fn response_json(reply: Reply) -> (r: Option<Json>)
    ensures
        match reply@ {
            ReplyView::Result { id, result } => r matches Some(j) && j@ == success_view(id, result),
            ReplyView::Error { id, code, message } => r matches Some(j) && j@ == error_view(id, code, message),
            _ => r is None,
        },
{
    match reply {
        Reply::Result { id, result } => {
            let ghost iv = id@;
            let ghost rv = result@;
            let mut f: Vec<(String, Json)> = Vec::new();
            assert(fields_of(f@) =~= Seq::<(Seq<char>, JsonView)>::empty());
            push_field(&mut f, "jsonrpc", Json::string("2.0"));
            push_field(&mut f, "id", id);
            push_field(&mut f, "result", result);
            assert(fields_of(f@) =~= seq![("jsonrpc"@, JsonView::Str("2.0"@)), ("id"@, iv), ("result"@, rv)]);
            Some(Json::object(f))
        },
        Reply::Error { id, code, message } => {
            let ghost iv = id@;
            let mut e: Vec<(String, Json)> = Vec::new();
            assert(fields_of(e@) =~= Seq::<(Seq<char>, JsonView)>::empty());
            push_field(&mut e, "code", Json::signed(code));
            push_field(&mut e, "message", Json::string(message.as_str()));
            assert(fields_of(e@) =~= seq![("code"@, JsonView::Number(signed_decimal_text(code as int))), ("message"@, JsonView::Str(message@))]);
            let mut f: Vec<(String, Json)> = Vec::new();
            assert(fields_of(f@) =~= Seq::<(Seq<char>, JsonView)>::empty());
            push_field(&mut f, "jsonrpc", Json::string("2.0"));
            push_field(&mut f, "id", id);
            push_field(&mut f, "error", Json::object(e));
            assert(fields_of(f@) =~= seq![
                ("jsonrpc"@, JsonView::Str("2.0"@)),
                ("id"@, iv),
                ("error"@, JsonView::Object(seq![("code"@, JsonView::Number(signed_decimal_text(code as int))), ("message"@, JsonView::Str(message@))])),
            ]);
            Some(Json::object(f))
        },
        _ => None,
    }
}

/// The fields naming an audited target in a tool's results: name, file and
/// line; `get_symbol` and `impact` are audited, other tools are not.
pub open spec fn audit_keys(tool: Seq<char>) -> Option<(Seq<char>, Seq<char>, Seq<char>)> {
    if tool == "get_symbol"@ {
        Some(("name"@, "file"@, "line"@))
    } else if tool == "impact"@ {
        Some(("target_name"@, "target_file"@, "target_line"@))
    } else {
        None
    }
}

/// The target one result names, where all three fields are there (the line
/// kept to its low 32 bits).
pub open spec fn target_of(item: JsonView, keys: (Seq<char>, Seq<char>, Seq<char>)) -> Option<(Seq<char>, Seq<char>, u32)> {
    match (as_str_spec(get_field(item, keys.0)), as_str_spec(get_field(item, keys.1)), as_u64_spec(get_field(item, keys.2))) {
        (Some(n), Some(f), Some(l)) => Some((n, f, l as u32)),
        _ => None,
    }
}

/// The targets the first `k` results name, in order.
pub open spec fn targets_of(items: Seq<JsonView>, keys: (Seq<char>, Seq<char>, Seq<char>), k: int) -> Seq<(Seq<char>, Seq<char>, u32)>
    decreases k,
{
    if k <= 0 || k > items.len() {
        Seq::empty()
    } else {
        let rest = targets_of(items, keys, k - 1);
        match target_of(items[k - 1], keys) {
            Some(t) => rest.push(t),
            None => rest,
        }
    }
}

/// The targets a tool's answer records in the audit log.
pub open spec fn audit_targets_spec(tool: Seq<char>, payload: JsonView) -> Seq<(Seq<char>, Seq<char>, u32)> {
    match audit_keys(tool) {
        Some(keys) => match get_field(payload, "results"@) {
            Some(JsonView::Array(items)) => targets_of(items, keys, items.len() as int),
            _ => Seq::empty(),
        },
        None => Seq::empty(),
    }
}

proof fn lemma_targets_all(items: Seq<JsonView>, keys: (Seq<char>, Seq<char>, Seq<char>), k: int)
    requires
        0 <= k <= items.len(),
        forall|i: int| 0 <= i < items.len() ==> #[trigger] target_of(items[i], keys) is Some,
    ensures
        targets_of(items, keys, k).len() == k,
        forall|i: int| 0 <= i < k ==> Some(#[trigger] targets_of(items, keys, k)[i]) == target_of(items[i], keys),
    decreases k,
{
    if k > 0 {
        lemma_targets_all(items, keys, k - 1);
        assert(target_of(items[k - 1], keys) is Some);
    }
}

/// The audit log records the targets of `get_symbol` and `impact` answers
/// only: nothing for any other tool (such as `find`); and where each result
/// of such an answer names its target, one target per result, in order.
pub proof fn lemma_audit_records_lookups_only(tool: Seq<char>, payload: JsonView)
    ensures
        tool != "get_symbol"@ && tool != "impact"@ ==> audit_targets_spec(tool, payload).len() == 0,
        audit_keys(tool) matches Some(keys) ==> (get_field(payload, "results"@) matches Some(JsonView::Array(items))
            ==> ((forall|i: int| 0 <= i < items.len() ==> #[trigger] target_of(items[i], keys) is Some) ==> (
        audit_targets_spec(tool, payload).len() == items.len() && forall|i: int|
            0 <= i < items.len() ==> Some(#[trigger] audit_targets_spec(tool, payload)[i]) == target_of(items[i], keys)))),
{
    if let Some(keys) = audit_keys(tool) {
        if let Some(JsonView::Array(items)) = get_field(payload, "results"@) {
            if forall|i: int| 0 <= i < items.len() ==> #[trigger] target_of(items[i], keys) is Some {
                lemma_targets_all(items, keys, items.len() as int);
            }
        }
    }
}

/// The plain values of a list of targets.
pub open spec fn targets_view(v: Seq<(String, String, u32)>) -> Seq<(Seq<char>, Seq<char>, u32)> {
    v.map_values(|t: (String, String, u32)| (t.0@, t.1@, t.2))
}

/// The targets (name, file, line) a tool's answer records in the audit log.
pub fn audit_targets(tool: &str, payload: &Json) -> (r: Vec<(String, String, u32)>)
    ensures
        targets_view(r@) == audit_targets_spec(tool@, payload@),
{
    let mut r: Vec<(String, String, u32)> = Vec::new();
    let (kn, kf, kl): (&str, &str, &str) = if str_eq(tool, "get_symbol") {
        ("name", "file", "line")
    } else if str_eq(tool, "impact") {
        ("target_name", "target_file", "target_line")
    } else {
        assert(targets_view(r@) =~= Seq::<(Seq<char>, Seq<char>, u32)>::empty());
        return r;
    };
    let ghost keys = (kn@, kf@, kl@);
    assert(audit_keys(tool@) == Some(keys));
    let items = match payload.get("results") {
        Some(Json::Array(items)) => items,
        _ => {
            assert(targets_view(r@) =~= Seq::<(Seq<char>, Seq<char>, u32)>::empty());
            return r;
        },
    };
    let ghost iv = views_of(items@);
    assert(get_field(payload@, "results"@) == Some(JsonView::Array(iv)));
    proof {
        crate::mcp::json::lemma_views_len(items@);
    }
    let mut k: usize = 0;
    while k < items.len()
        invariant
            k <= items@.len(),
            iv == views_of(items@),
            iv.len() == items@.len(),
            keys == (kn@, kf@, kl@),
            targets_view(r@) == targets_of(iv, keys, k as int),
        decreases items@.len() - k,
    {
        proof {
            lemma_json_views_index(items@, items@.len() as int, k as int);
        }
        let item = &items[k];
        let n = match item.get(kn) {
            Some(v) => v.as_str(),
            None => None,
        };
        let f = match item.get(kf) {
            Some(v) => v.as_str(),
            None => None,
        };
        let l = match item.get(kl) {
            Some(v) => v.as_u64(),
            None => None,
        };
        let ghost before = r@;
        if let (Some(n), Some(f), Some(l)) = (n, f, l) {
            let line: u32 = #[verifier::truncate] (l as u32);
            let t = (String::from_str(n), String::from_str(f), line);
            r.push(t);
            assert(targets_view(r@) =~= targets_view(before).push((n@, f@, line)));
        }
        assert(targets_view(r@) =~= targets_of(iv, keys, k + 1));
        k = k + 1;
    }
    r
}

} // verus!
