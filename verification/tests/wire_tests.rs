use corbel::index::stale_files;
use corbel::mcp::json::Json;
use corbel::mcp::server::{tool_reply, Reply};
use corbel::mcp::wire::{reply_to_line, response_line, tool_text_content};

fn payload() -> Json {
    Json::Object(vec![
        ("name".to_string(), Json::Str("add".to_string())),
        ("count".to_string(), Json::Number("2".to_string())),
    ])
}

#[test]
fn tool_text_content_holds_the_payload_as_json_text() {
    let content = tool_text_content(&payload());
    let items = match content.get("content") {
        Some(Json::Array(items)) => items,
        other => panic!("no content array: {:?}", other),
    };
    assert_eq!(items.len(), 1);
    assert_eq!(items[0].get("type").and_then(|t| t.as_str()), Some("text"));
    let text = items[0].get("text").and_then(|t| t.as_str()).unwrap();
    let parsed: serde_json::Value = serde_json::from_str(text).unwrap();
    assert_eq!(parsed["name"], "add");
    assert_eq!(parsed["count"], 2);
}

#[test]
fn response_line_writes_a_tool_result_as_one_json_line() {
    let reply = tool_reply(Json::Number("7".to_string()), Ok(tool_text_content(&payload())));
    let line = response_line(reply).unwrap();
    assert!(!line.contains('\n'));
    let parsed: serde_json::Value = serde_json::from_str(&line).unwrap();
    assert_eq!(parsed["jsonrpc"], "2.0");
    assert_eq!(parsed["id"], 7);
    let text = parsed["result"]["content"][0]["text"].as_str().unwrap();
    let inner: serde_json::Value = serde_json::from_str(text).unwrap();
    assert_eq!(inner["name"], "add");
}

#[test]
fn a_line_that_is_not_json_is_answered_with_a_parse_error() {
    let reply = reply_to_line("{not json", "0.1.0");
    assert!(matches!(reply, Reply::Error { code: -32700, .. }));
    let line = response_line(reply).unwrap();
    let parsed: serde_json::Value = serde_json::from_str(&line).unwrap();
    assert_eq!(parsed["error"]["code"], -32700);
    assert_eq!(parsed["id"], serde_json::Value::Null);
}

#[test]
fn an_initialize_line_is_answered_with_the_server_version() {
    let reply = reply_to_line(
        r#"{"jsonrpc":"2.0","id":1,"method":"initialize","params":{"protocolVersion":"2024-11-05"}}"#,
        "9.9.9",
    );
    let line = response_line(reply).unwrap();
    let parsed: serde_json::Value = serde_json::from_str(&line).unwrap();
    assert_eq!(parsed["id"], 1);
    assert_eq!(parsed["result"]["protocolVersion"], "2024-11-05");
    assert_eq!(parsed["result"]["serverInfo"]["version"], "9.9.9");
}

#[test]
fn a_notification_line_gets_no_response_line() {
    let reply = reply_to_line(r#"{"jsonrpc":"2.0","method":"notifications/initialized"}"#, "0.1.0");
    assert!(response_line(reply).is_none());
}

#[test]
fn only_files_whose_hash_changed_are_stale() {
    let files = vec![
        ("a.rs".to_string(), Some("1".to_string()), Some("1".to_string())),
        ("b.rs".to_string(), Some("1".to_string()), Some("2".to_string())),
        ("c.rs".to_string(), Some("3".to_string()), None),
        ("d.rs".to_string(), None, Some("4".to_string())),
    ];
    assert_eq!(stale_files(&files), vec!["b.rs".to_string()]);
}
