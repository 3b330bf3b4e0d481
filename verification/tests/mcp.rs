use frugal::json::{canonical, get, JsonValue};
use frugal::mcp::{
    handle_message, parse_tool_call, tool_call_reply, tool_definitions, unknown_tool_result, McpReply,
    ToolRequest,
};

fn s(t: &str) -> JsonValue {
    JsonValue::String(t.to_string())
}

fn n(t: &str) -> JsonValue {
    JsonValue::Number(t.to_string())
}

fn obj(entries: Vec<(&str, JsonValue)>) -> JsonValue {
    JsonValue::Object(entries.into_iter().map(|(k, v)| (k.to_string(), v)).collect())
}

fn at<'a>(v: &'a JsonValue, key: &str) -> &'a JsonValue {
    get(v, key).expect("missing key")
}

fn reply(msg: &JsonValue) -> JsonValue {
    match handle_message(msg) {
        McpReply::Reply(v) => v,
        _ => panic!("expected a reply"),
    }
}

#[test]
fn initialize_and_list_tools() {
    let init = obj(vec![("jsonrpc", s("2.0")), ("id", n("1")), ("method", s("initialize")), ("params", obj(vec![]))]);
    let r = reply(&init);
    assert_eq!(canonical(at(at(at(&r, "result"), "serverInfo"), "name")), "\"frugal-tokenomics\"");

    let list = obj(vec![("jsonrpc", s("2.0")), ("id", n("2")), ("method", s("tools/list"))]);
    let r = reply(&list);
    let tools = match at(at(&r, "result"), "tools") {
        JsonValue::Array(items) => items,
        _ => panic!("tools is not an array"),
    };
    assert!(tools.iter().any(|t| canonical(at(t, "name")) == "\"frugal_get_stats\""));
    assert!(tools.len() >= 11);
}

#[test]
fn notifications_get_no_response() {
    let note = obj(vec![("jsonrpc", s("2.0")), ("method", s("notifications/initialized"))]);
    assert!(matches!(handle_message(&note), McpReply::NoReply));
}

#[test]
fn initialize_reply_text() {
    let init = obj(vec![("jsonrpc", s("2.0")), ("id", n("7")), ("method", s("initialize"))]);
    assert_eq!(
        canonical(&reply(&init)),
        r#"{"id":7,"jsonrpc":"2.0","result":{"capabilities":{"tools":{}},"protocolVersion":"2024-11-05","serverInfo":{"name":"frugal-tokenomics","version":"0.1.0"}}}"#
    );
}

#[test]
fn ping_and_unknown_method() {
    let ping = obj(vec![("id", s("a")), ("method", s("ping"))]);
    assert_eq!(canonical(&reply(&ping)), r#"{"id":"a","jsonrpc":"2.0","result":{}}"#);
    let other = obj(vec![("id", n("3")), ("method", s("resources/list"))]);
    assert_eq!(
        canonical(&reply(&other)),
        r#"{"error":{"code":-32601,"message":"method not found: resources/list"},"id":3,"jsonrpc":"2.0"}"#
    );
    let no_method = obj(vec![("id", n("4"))]);
    assert_eq!(
        canonical(&reply(&no_method)),
        r#"{"error":{"code":-32601,"message":"method not found: "},"id":4,"jsonrpc":"2.0"}"#
    );
    let null_id = obj(vec![("id", JsonValue::Null), ("method", s("ping"))]);
    assert!(matches!(handle_message(&null_id), McpReply::NoReply));
}

#[test]
fn tools_call_is_handed_out_then_answered() {
    let call = obj(vec![
        ("id", n("9")),
        ("method", s("tools/call")),
        ("params", obj(vec![("name", s("frugal_checkpoint")), ("arguments", obj(vec![("note", s("before refactor"))]))])),
    ]);
    match handle_message(&call) {
        McpReply::CallTool { id, name, args } => {
            assert_eq!(canonical(&id), "9");
            assert_eq!(name, "frugal_checkpoint");
            assert_eq!(canonical(&args), r#"{"note":"before refactor"}"#);
            match parse_tool_call(&name, &args) {
                ToolRequest::Checkpoint { note } => assert_eq!(note, "before refactor"),
                _ => panic!("expected a checkpoint"),
            }
            let ok = tool_call_reply(id, Ok(obj(vec![("b", n("2")), ("a", n("1"))])));
            assert_eq!(
                canonical(&ok),
                r#"{"id":9,"jsonrpc":"2.0","result":{"content":[{"text":"{\"a\":1,\"b\":2}","type":"text"}]}}"#
            );
        }
        _ => panic!("expected a tool call"),
    }
    let err = tool_call_reply(n("5"), Err("profile must be one".to_string()));
    assert_eq!(
        canonical(&err),
        r#"{"id":5,"jsonrpc":"2.0","result":{"content":[{"text":"error: profile must be one","type":"text"}],"isError":true}}"#
    );
}

#[test]
fn tool_call_arguments() {
    assert!(matches!(parse_tool_call("frugal_get_stats", &JsonValue::Null), ToolRequest::GetStats));
    match parse_tool_call("frugal_checkpoint", &JsonValue::Null) {
        ToolRequest::Checkpoint { note } => assert_eq!(note, "via MCP"),
        _ => panic!("expected a checkpoint"),
    }
    match parse_tool_call("frugal_set_budget", &obj(vec![("scope", s("daily")), ("usd", n("12.5"))])) {
        ToolRequest::SetBudget { scope, usd } => {
            assert_eq!(scope, "daily");
            assert_eq!(usd.as_deref(), Some("12.5"));
        }
        _ => panic!("expected a budget"),
    }
    match parse_tool_call("frugal_set_budget", &obj(vec![("usd", s("12"))])) {
        ToolRequest::SetBudget { scope, usd } => {
            assert_eq!(scope, "");
            assert!(usd.is_none());
        }
        _ => panic!("expected a budget"),
    }
    match parse_tool_call("frugal_delete_everything", &JsonValue::Null) {
        ToolRequest::Unknown { name } => assert_eq!(name, "frugal_delete_everything"),
        _ => panic!("expected unknown"),
    }
    assert_eq!(canonical(&unknown_tool_result("x")), r#"{"error":"unknown tool x"}"#);
}

#[test]
fn catalogue_has_eleven_tools_in_order() {
    let defs = tool_definitions();
    let items = match &defs {
        JsonValue::Array(items) => items,
        _ => panic!("not an array"),
    };
    assert_eq!(items.len(), 11);
    assert_eq!(canonical(at(&items[0], "name")), "\"frugal_get_session\"");
    assert_eq!(canonical(at(&items[10], "name")), "\"frugal_set_budget\"");
    assert_eq!(
        canonical(at(&items[10], "inputSchema")),
        r#"{"properties":{"scope":{"type":"string"},"usd":{"type":"number"}},"required":["scope"],"type":"object"}"#
    );
}

#[test]
fn set_budget_tool_schema() {
    let tools = match tool_definitions() {
        JsonValue::Array(items) => items,
        _ => panic!("catalogue is not an array"),
    };
    assert_eq!(tools.len(), 11);
    assert_eq!(
        canonical(&tools[10]),
        r#"{"description":"Set a USD budget. Scope: task|session|daily. Omit usd to clear.","inputSchema":{"properties":{"scope":{"type":"string"},"usd":{"type":"number"}},"required":["scope"],"type":"object"},"name":"frugal_set_budget"}"#
    );
    assert_eq!(
        canonical(at(&tools[8], "inputSchema")),
        r#"{"properties":{"note":{"description":"short label for the checkpoint","type":"string"}},"type":"object"}"#
    );
}

#[test]
fn serve_step_skips_blank_and_unparsable_lines() {
    assert!(matches!(frugal::mcp::serve_step(""), McpReply::NoReply));
    assert!(matches!(frugal::mcp::serve_step("  \t \u{3000}"), McpReply::NoReply));
    assert!(matches!(frugal::mcp::serve_step("{not json"), McpReply::NoReply));
    assert!(matches!(
        frugal::mcp::serve_step(r#"{"jsonrpc":"2.0","method":"notifications/initialized"}"#),
        McpReply::NoReply
    ));
    match frugal::mcp::serve_step(r#"  {"jsonrpc":"2.0","id":3,"method":"ping"}  "#) {
        McpReply::Reply(v) => assert_eq!(canonical(&v), r#"{"id":3,"jsonrpc":"2.0","result":{}}"#),
        _ => panic!("expected a reply"),
    }
    match frugal::mcp::serve_step(r#"{"jsonrpc":"2.0","id":"a","method":"tools/call","params":{"name":"frugal_checkpoint","arguments":{"note":"x"}}}"#) {
        McpReply::CallTool { id, name, args } => {
            assert_eq!(canonical(&id), "\"a\"");
            assert_eq!(name, "frugal_checkpoint");
            assert_eq!(canonical(&args), r#"{"note":"x"}"#);
        }
        _ => panic!("expected a tool call"),
    }
}

#[test]
fn parse_json_converts_values() {
    assert!(frugal::json::parse_json("[1,").is_none());
    let v = frugal::json::parse_json(r#" {"b": [1, 2.5, -3, true, null], "a": "x\ny"} "#).expect("parses");
    assert_eq!(canonical(&v), r#"{"a":"x\ny","b":[1,2.5,-3,true,null]}"#);
}
