use vstd::prelude::*;

use crate::mcp::json::{fields_of, push_field, push_item, views_of, Json, JsonView};
use crate::mcp::server::{error_view, handle_request, request_reply, response_json, success_view, Reply, ReplyView};

verus! {

#[verifier::external_type_specification]
#[verifier::external_body]
pub struct ExJsonValue(serde_json::Value);

/// The JSON value `serde_json::from_str::<serde_json::Value>` reads from
/// `text`, as plain values (an object's fields in the order `serde_json`'s map
/// keeps them); `None` where `text` is not JSON.
pub uninterp spec fn json_text_parse(text: Seq<char>) -> Option<JsonView>;

/// The text `serde_json::Value::to_string` writes for the value `j`.
pub uninterp spec fn json_text_of(j: JsonView) -> Seq<char>;

/// A `serde_json` value as the library's JSON value, one variant for one;
/// used by `parse_json_text`.
#[verifier::external_body]
fn json_of_value(v: &serde_json::Value) -> Json {
    match v {
        serde_json::Value::Null => Json::Null,
        serde_json::Value::Bool(b) => Json::Bool(*b),
        serde_json::Value::Number(n) => Json::Number(n.to_string()),
        serde_json::Value::String(s) => Json::Str(s.clone()),
        serde_json::Value::Array(items) => Json::Array(items.iter().map(json_of_value).collect()),
        serde_json::Value::Object(map) => Json::Object(map.iter().map(|(k, v)| (k.clone(), json_of_value(v))).collect()),
    }
}

/// The library's JSON value as a `serde_json` value, one variant for one (a
/// number by parsing its text, `null` where that text is no JSON number); used
/// by `render_json`.
#[verifier::external_body]
fn value_of_json(j: &Json) -> serde_json::Value {
    match j {
        Json::Null => serde_json::Value::Null,
        Json::Bool(b) => serde_json::Value::Bool(*b),
        Json::Number(text) => text.parse::<serde_json::Number>().map_or(serde_json::Value::Null, serde_json::Value::Number),
        Json::Str(s) => serde_json::Value::String(s.clone()),
        Json::Array(items) => serde_json::Value::Array(items.iter().map(value_of_json).collect()),
        Json::Object(fields) => serde_json::Value::Object(fields.iter().map(|(k, v)| (k.clone(), value_of_json(v))).collect()),
    }
}

/// `serde_json::from_str::<serde_json::Value>` on `text`, the value read as the
/// library's JSON value; the contract names what it reads `json_text_parse`.
#[verifier::external_body]
fn parse_json_text(text: &str) -> (r: Option<Json>)
    ensures
        (match r {
            Some(j) => Some(j@),
            None => None,
        }) == json_text_parse(text@),
{
    serde_json::from_str::<serde_json::Value>(text).ok().map(|v| json_of_value(&v))
}

/// `serde_json::Value::to_string` on `j`; the contract names what it writes
/// `json_text_of`.
#[verifier::external_body]
fn render_json(j: &Json) -> (s: String)
    ensures
        s@ == json_text_of(j@),
{
    value_of_json(j).to_string()
}

/// The reply to one request line: the line read as JSON (`None` where it is
/// not JSON) and answered as `handle_request` does.
pub fn reply_to_line(line: &str, server_version: &str) -> (r: Reply)
    ensures
        r@ == request_reply(json_text_parse(line@), server_version@),
{
    match parse_json_text(line) {
        Some(j) => handle_request(Some(&j), server_version),
        None => handle_request(None, server_version),
    }
}

/// A tool result as MCP text content: one text item holding `text`.
pub open spec fn text_content_view(text: Seq<char>) -> JsonView {
    JsonView::Object(
        seq![
            ("content"@, JsonView::Array(seq![JsonView::Object(seq![("type"@, JsonView::Str("text"@)), ("text"@, JsonView::Str(text))])])),
        ],
    )
}

/// The tool result `payload` as MCP text content: the payload written as JSON
/// text in a single text item.
pub fn tool_text_content(payload: &Json) -> (j: Json)
    ensures
        j@ == text_content_view(json_text_of(payload@)),
{
    let text = render_json(payload);
    let ghost tv = text@;
    let mut item: Vec<(String, Json)> = Vec::new();
    assert(fields_of(item@) =~= Seq::<(Seq<char>, JsonView)>::empty());
    push_field(&mut item, "type", Json::string("text"));
    push_field(&mut item, "text", Json::string(text.as_str()));
    let ghost entry = JsonView::Object(seq![("type"@, JsonView::Str("text"@)), ("text"@, JsonView::Str(tv))]);
    assert(fields_of(item@) =~= seq![("type"@, JsonView::Str("text"@)), ("text"@, JsonView::Str(tv))]);
    let mut items: Vec<Json> = Vec::new();
    assert(views_of(items@) =~= Seq::<JsonView>::empty());
    push_item(&mut items, Json::object(item));
    assert(views_of(items@) =~= seq![entry]);
    let mut outer: Vec<(String, Json)> = Vec::new();
    assert(fields_of(outer@) =~= Seq::<(Seq<char>, JsonView)>::empty());
    push_field(&mut outer, "content", Json::array(items));
    assert(fields_of(outer@) =~= seq![("content"@, JsonView::Array(seq![entry]))]);
    Json::object(outer)
}

/// The response line a reply is sent as: its response (see `response_json`)
/// written as JSON text; nothing for a silent reply or a tool call not yet
/// run.
pub fn response_line(reply: Reply) -> (r: Option<String>)
    ensures
        match reply@ {
            ReplyView::Result { id, result } => r matches Some(s) && s@ == json_text_of(success_view(id, result)),
            ReplyView::Error { id, code, message } => r matches Some(s) && s@ == json_text_of(error_view(id, code, message)),
            _ => r is None,
        },
{
    match response_json(reply) {
        Some(j) => Some(render_json(&j)),
        None => None,
    }
}

} // verus!
