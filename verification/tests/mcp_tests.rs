use corbel::mcp::json::Json;
use corbel::mcp::payload::{find_payload, get_symbol_payload, impact_payload};
use corbel::mcp::server::{
    audit_targets, handle_initialize, response_json, tool_reply, Reply, ToolName,
    LATEST_PROTOCOL_VERSION,
};
use corbel::mcp::wire::reply_to_line;
use corbel::mcp::tools::{find_args, get_symbol_args, impact_args, list_tools, ToolCallError};
use corbel::query::{CalleeInfo, CallerInfo, FindMatch, FindResult, ImpactNode, ImpactResult, SymbolInfo, SymbolResult};

fn to_json(v: &serde_json::Value) -> Json {
    match v {
        serde_json::Value::Null => Json::Null,
        serde_json::Value::Bool(b) => Json::Bool(*b),
        serde_json::Value::Number(n) => Json::Number(n.to_string()),
        serde_json::Value::String(s) => Json::Str(s.clone()),
        serde_json::Value::Array(items) => Json::Array(items.iter().map(to_json).collect()),
        serde_json::Value::Object(map) => {
            Json::Object(map.iter().map(|(k, v)| (k.clone(), to_json(v))).collect())
        }
    }
}

fn request(line: &str) -> Reply {
    reply_to_line(line, "0.1.0")
}

fn error_code(reply: &Reply) -> Option<i64> {
    match reply {
        Reply::Error { code, .. } => Some(*code),
        _ => None,
    }
}

fn str_field<'a>(j: &'a Json, key: &str) -> Option<&'a str> {
    j.get(key).and_then(|v| v.as_str())
}

fn params(line: &str) -> Json {
    to_json(&serde_json::from_str::<serde_json::Value>(line).unwrap())
}

#[test]
fn initialize_negotiates_supported_client_version() {
    let result = handle_initialize(&params(r#"{ "protocolVersion": "2024-11-05" }"#), "0.1.0");
    assert_eq!(str_field(&result, "protocolVersion"), Some("2024-11-05"));
    assert_eq!(str_field(result.get("serverInfo").unwrap(), "name"), Some("corbel"));
}

#[test]
fn initialize_falls_back_to_latest_for_unsupported_client_version() {
    let result = handle_initialize(&params(r#"{ "protocolVersion": "1999-01-01" }"#), "0.1.0");
    assert_eq!(str_field(&result, "protocolVersion"), Some(LATEST_PROTOCOL_VERSION));
}

#[test]
fn initialize_falls_back_to_latest_when_version_missing() {
    let result = handle_initialize(&params("{}"), "0.1.0");
    assert_eq!(str_field(&result, "protocolVersion"), Some(LATEST_PROTOCOL_VERSION));
    assert_eq!(LATEST_PROTOCOL_VERSION, "2025-06-18");
}

#[test]
fn tools_list_returns_get_symbol_impact_and_find() {
    match request(r#"{"jsonrpc":"2.0","id":1,"method":"tools/list"}"#) {
        Reply::Result { result, .. } => match result.get("tools") {
            Some(Json::Array(tools)) => {
                let names: Vec<&str> = tools.iter().map(|t| str_field(t, "name").unwrap()).collect();
                assert_eq!(names, vec!["get_symbol", "impact", "find"]);
            }
            _ => panic!("tools list is not an array"),
        },
        _ => panic!("tools/list did not answer with a result"),
    }
    assert_eq!(list_tools().len(), 3);
}

#[test]
fn unknown_method_returns_method_not_found() {
    let reply = request(r#"{"jsonrpc":"2.0","id":1,"method":"does/not/exist"}"#);
    assert_eq!(error_code(&reply), Some(-32601));
}

#[test]
fn unknown_tool_call_returns_error() {
    let reply = request(r#"{"jsonrpc":"2.0","id":1,"method":"tools/call","params":{"name":"ghost"}}"#);
    assert_eq!(error_code(&reply), Some(-32602));
    match reply {
        Reply::Error { message, .. } => assert_eq!(message, "Unknown tool: ghost"),
        _ => unreachable!(),
    }
}

fn call_arguments(line: &str) -> (ToolName, Json) {
    match request(line) {
        Reply::CallTool { tool, arguments, .. } => (tool, arguments),
        _ => panic!("not a tool call"),
    }
}

#[test]
fn get_symbol_call_missing_name_argument_is_invalid_params() {
    let (tool, arguments) =
        call_arguments(r#"{"jsonrpc":"2.0","id":1,"method":"tools/call","params":{"name":"get_symbol","arguments":{}}}"#);
    assert_eq!(tool, ToolName::GetSymbol);
    let outcome = get_symbol_args(&arguments, 8000).map(|_| Json::Null);
    assert_eq!(error_code(&tool_reply(Json::Null, outcome)), Some(-32602));
}

#[test]
fn get_symbol_call_with_line_but_no_file_is_invalid_params() {
    let (_, arguments) = call_arguments(
        r#"{"jsonrpc":"2.0","id":1,"method":"tools/call","params":{"name":"get_symbol","arguments":{"name":"b","line":1}}}"#,
    );
    match get_symbol_args(&arguments, 8000) {
        Err(ToolCallError::InvalidParams(m)) => assert_eq!(m, "argument \"line\" requires \"file\" to also be set"),
        _ => panic!("line without file was accepted"),
    }
}

#[test]
fn get_symbol_arguments_are_read() {
    let args = params(r#"{"name":"b","file":"b.rs","line":3,"token_budget":50}"#);
    let parsed = get_symbol_args(&args, 8000).unwrap();
    assert_eq!(parsed.name, "b");
    assert_eq!(parsed.file.as_deref(), Some("b.rs"));
    assert_eq!(parsed.line, Some(3));
    assert_eq!(parsed.token_budget, 50);
    let defaults = get_symbol_args(&params(r#"{"name":"b","file":null}"#), 8000).unwrap();
    assert_eq!(defaults.file, None);
    assert_eq!(defaults.token_budget, 8000);
}

#[test]
fn argument_type_errors_name_the_argument() {
    let empty = get_symbol_args(&params(r#"{"name":""}"#), 1);
    assert_eq!(empty, Err(ToolCallError::InvalidParams("argument \"name\" must not be empty".to_string())));
    let missing = impact_args(&params("{}"), 1);
    assert_eq!(missing, Err(ToolCallError::InvalidParams("missing required argument \"name\"".to_string())));
    let file = impact_args(&params(r#"{"name":"a","file":3}"#), 1);
    assert_eq!(file, Err(ToolCallError::InvalidParams("argument \"file\" must be a string".to_string())));
    let budget = impact_args(&params(r#"{"name":"a","token_budget":-1}"#), 1);
    assert_eq!(
        budget,
        Err(ToolCallError::InvalidParams("argument \"token_budget\" must be a non-negative number".to_string()))
    );
    let line = get_symbol_args(&params(r#"{"name":"a","file":"a.rs","line":4294967296}"#), 1);
    assert_eq!(line, Err(ToolCallError::InvalidParams("argument \"line\" must be a non-negative number".to_string())));
}

#[test]
fn find_call_missing_query_argument_is_invalid_params() {
    let (tool, arguments) =
        call_arguments(r#"{"jsonrpc":"2.0","id":1,"method":"tools/call","params":{"name":"find","arguments":{}}}"#);
    assert_eq!(tool, ToolName::Find);
    let outcome = find_args(&arguments, 20, 8000).map(|_| Json::Null);
    assert_eq!(error_code(&tool_reply(Json::Null, outcome)), Some(-32602));
}

#[test]
fn find_call_limit_above_maximum_is_invalid_params() {
    let (_, arguments) = call_arguments(
        r#"{"jsonrpc":"2.0","id":1,"method":"tools/call","params":{"name":"find","arguments":{"query":"a","limit":500}}}"#,
    );
    match find_args(&arguments, 20, 8000) {
        Err(ToolCallError::InvalidParams(m)) => assert_eq!(m, "argument \"limit\" must not exceed 200"),
        _ => panic!("limit above the maximum was accepted"),
    }
    let zero = find_args(&params(r#"{"query":"a","limit":0}"#), 20, 8000).unwrap();
    assert_eq!(zero.limit, 0);
    let float = find_args(&params(r#"{"query":"a","limit":2.5}"#), 20, 8000);
    assert_eq!(
        float,
        Err(ToolCallError::InvalidParams("argument \"limit\" must be a non-negative number".to_string()))
    );
}

#[test]
fn malformed_json_returns_parse_error() {
    assert_eq!(error_code(&request("not json")), Some(-32700));
}

#[test]
fn non_object_request_is_invalid() {
    assert_eq!(error_code(&request("[1, 2]")), Some(-32600));
    assert_eq!(error_code(&request(r#"{"id": 4}"#)), Some(-32600));
    assert!(matches!(request(r#"{"jsonrpc":"2.0"}"#), Reply::Silent));
}

#[test]
fn notification_produces_no_response() {
    assert!(matches!(request(r#"{"jsonrpc":"2.0","method":"notifications/initialized"}"#), Reply::Silent));
}

#[test]
fn unknown_notification_produces_no_response() {
    assert!(matches!(request(r#"{"jsonrpc":"2.0","method":"notifications/ghost"}"#), Reply::Silent));
}

#[test]
fn error_response_echoes_the_id_and_code() {
    let reply = request(r#"{"jsonrpc":"2.0","id":"abc","method":"does/not/exist"}"#);
    let response = response_json(reply).unwrap();
    assert_eq!(str_field(&response, "jsonrpc"), Some("2.0"));
    assert_eq!(str_field(&response, "id"), Some("abc"));
    let error = response.get("error").unwrap();
    assert_eq!(error.get("code"), Some(&Json::Number("-32601".to_string())));
    assert_eq!(str_field(error, "message"), Some("Method not found: does/not/exist"));
    assert!(response_json(Reply::Silent).is_none());
}

fn info(name: &str, file: &str, line: u32) -> SymbolInfo {
    SymbolInfo {
        name: name.to_string(),
        file: file.to_string(),
        line,
        kind: "function".to_string(),
        signature: None,
        is_public: true,
    }
}

#[test]
fn get_symbol_call_for_missing_symbol_reports_not_found() {
    let payload = get_symbol_payload("ghost", &vec![]);
    assert_eq!(payload.get("found"), Some(&Json::Bool(false)));
    assert!(str_field(&payload, "message").unwrap().contains("ghost"));
    assert_eq!(str_field(&payload, "message"), Some("no symbol named \"ghost\" found in the index"));
}

#[test]
fn get_symbol_payload_lists_callers_and_callees() {
    let result = SymbolResult {
        symbol: info("b", "b.rs", 1),
        callers: vec![CallerInfo {
            name: "a".to_string(),
            file: "a.rs".to_string(),
            line: 1,
            resolution: "global-unique".to_string(),
        }],
        callees: vec![CalleeInfo { name: "c".to_string(), file: None, resolution: "external".to_string() }],
        truncated: false,
        truncated_count: 0,
    };
    let payload = get_symbol_payload("b", &vec![result]);
    assert_eq!(payload.get("found"), Some(&Json::Bool(true)));
    assert_eq!(payload.get("count"), Some(&Json::Number("1".to_string())));
    match payload.get("results") {
        Some(Json::Array(items)) => {
            let callers = items[0].get("callers").unwrap();
            match callers {
                Json::Array(cs) => assert_eq!(str_field(&cs[0], "name"), Some("a")),
                _ => panic!("callers is not an array"),
            }
            match items[0].get("callees").unwrap() {
                Json::Array(cs) => assert_eq!(cs[0].get("file"), Some(&Json::Null)),
                _ => panic!("callees is not an array"),
            }
        }
        _ => panic!("results is not an array"),
    }
    let targets = audit_targets("get_symbol", &payload);
    assert_eq!(targets, vec![("b".to_string(), "b.rs".to_string(), 1)]);
    assert!(audit_targets("find", &payload).is_empty());
}

#[test]
fn impact_payload_reports_targets_for_the_audit_log() {
    let result = ImpactResult {
        target: info("t", "t.rs", 4),
        affected: vec![ImpactNode {
            name: "u".to_string(),
            file: "u.rs".to_string(),
            line: 9,
            resolution: "scoped".to_string(),
            owner: None,
            lang: "rs".to_string(),
            depth: 1,
        }],
        truncated: true,
        truncated_count: 2,
        max_depth_reached: 1,
    };
    let payload = impact_payload("t", &vec![result]);
    match payload.get("results") {
        Some(Json::Array(items)) => {
            assert_eq!(items[0].get("affected_count"), Some(&Json::Number("1".to_string())));
            assert_eq!(items[0].get("truncated"), Some(&Json::Bool(true)));
        }
        _ => panic!("results is not an array"),
    }
    assert_eq!(audit_targets("impact", &payload), vec![("t".to_string(), "t.rs".to_string(), 4)]);
}

#[test]
fn find_call_with_zero_limit_returns_no_results_without_error() {
    let result = FindResult { matches: vec![], total_matches: 1, truncated: true, truncated_count: 1 };
    let payload = find_payload("a", &result);
    assert_eq!(payload.get("found"), Some(&Json::Bool(true)));
    assert_eq!(payload.get("count"), Some(&Json::Number("0".to_string())));
    assert_eq!(payload.get("total_matches"), Some(&Json::Number("1".to_string())));
    assert_eq!(payload.get("results"), Some(&Json::Array(vec![])));
    assert_eq!(
        str_field(&payload, "message"),
        Some("1 symbol(s) matched \"a\" but none fit within the token budget; increase token_budget to see them")
    );
}

#[test]
fn find_payload_lists_matches_and_reports_none() {
    let none = find_payload("zz", &FindResult { matches: vec![], total_matches: 0, truncated: false, truncated_count: 0 });
    assert_eq!(none.get("found"), Some(&Json::Bool(false)));
    let one = FindMatch {
        name: "widget".to_string(),
        file: "w.rs".to_string(),
        line: 5,
        kind: "function".to_string(),
        signature: Some("fn widget()".to_string()),
        is_public: false,
    };
    let some = find_payload("wid", &FindResult { matches: vec![one], total_matches: 1, truncated: false, truncated_count: 0 });
    assert_eq!(some.get("count"), Some(&Json::Number("1".to_string())));
}

#[test]
fn every_request_with_an_id_is_answered_with_that_id() {
    let lines = [
        r#"{"jsonrpc":"2.0","id":7,"method":"initialize","params":{}}"#,
        r#"{"jsonrpc":"2.0","id":7,"method":"tools/list"}"#,
        r#"{"jsonrpc":"2.0","id":7,"method":"tools/call","params":{"name":"find","arguments":{"query":"x"}}}"#,
        r#"{"jsonrpc":"2.0","id":7,"method":"tools/call","params":{"name":"nope"}}"#,
        r#"{"jsonrpc":"2.0","id":7,"method":"ghost"}"#,
        r#"{"jsonrpc":"2.0","id":7}"#,
    ];
    for line in lines {
        let id = match request(line) {
            Reply::Silent => panic!("no answer to {}", line),
            Reply::Result { id, .. } => id,
            Reply::Error { id, .. } => id,
            Reply::CallTool { id, .. } => id,
        };
        assert_eq!(id, Json::Number("7".to_string()));
    }
}
