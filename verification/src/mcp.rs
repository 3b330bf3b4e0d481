//! MCP server logic (JSON-RPC 2.0): which reply a message gets, the tool
//! catalogue, and how a tool call's outcome is reported.
use vstd::prelude::*;
use crate::json::{
    canonical, canonical_json, copy_json, field_or_null, get, get_str_or, str_or, string_value, JsonValue,
};
use crate::text::{append, owned, str_equal};

verus! {

/// MCP protocol revision spoken.
pub const PROTOCOL_VERSION: &'static str = "2024-11-05";

/// Server name announced on `initialize`.
pub const SERVER_NAME: &'static str = "frugal-tokenomics";

/// Server version announced on `initialize`.
pub const SERVER_VERSION: &'static str = "0.1.0";

/// JSON-RPC error code for an unknown method.
pub const METHOD_NOT_FOUND: i64 = -32601;

/// `v` is a JSON string with text `t`.
pub open spec fn is_text(v: JsonValue, t: Seq<char>) -> bool {
    v is String && v->String_0@ == t
}

/// Number of entries of an object (0 for other values).
pub open spec fn entry_count(v: JsonValue) -> int {
    match v {
        JsonValue::Object(es) => es@.len() as int,
        _ => 0,
    }
}

/// Entry `i` of the object `v` has key `k`.
pub open spec fn key_at(v: JsonValue, i: int, k: Seq<char>) -> bool {
    v is Object && 0 <= i < v->Object_0@.len() && v->Object_0@[i].0@ == k
}

/// The value of entry `i` of the object `v`.
pub open spec fn value_at(v: JsonValue, i: int) -> JsonValue {
    v->Object_0@[i].1
}

/// `r` is a JSON-RPC 2.0 reply to the request `id` whose third entry is
/// `member` (`"result"` or `"error"`).
pub open spec fn is_reply(r: JsonValue, id: JsonValue, member: Seq<char>) -> bool {
    &&& entry_count(r) == 3
    &&& key_at(r, 0, "jsonrpc"@) && is_text(value_at(r, 0), "2.0"@)
    &&& key_at(r, 1, "id"@) && canonical_json(value_at(r, 1)) == canonical_json(id)
    &&& key_at(r, 2, member)
}

/// A reply carrying `result`.
pub fn response(id: JsonValue, result: JsonValue) -> (r: JsonValue)
    ensures
        is_reply(r, id, "result"@),
        value_at(r, 1) == id,
        value_at(r, 2) == result,
{
    let mut es: Vec<(String, JsonValue)> = Vec::new();
    es.push((owned("jsonrpc"), string_value("2.0")));
    es.push((owned("id"), id));
    es.push((owned("result"), result));
    JsonValue::Object(es)
}

/// `v` is the error object with `code` and `message`.
pub open spec fn is_error_object(v: JsonValue, code: i64, message: Seq<char>) -> bool {
    &&& entry_count(v) == 2
    &&& key_at(v, 0, "code"@) && value_at(v, 0) is Number && value_at(v, 0)->Number_0@ == crate::text::decimal(
        code as int,
    )
    &&& key_at(v, 1, "message"@) && is_text(value_at(v, 1), message)
}

/// A reply carrying an error.
pub fn error_response(id: JsonValue, code: i64, message: &str) -> (r: JsonValue)
    ensures
        is_reply(r, id, "error"@),
        value_at(r, 1) == id,
        is_error_object(value_at(r, 2), code, message@),
{
    let mut err: Vec<(String, JsonValue)> = Vec::new();
    err.push((owned("code"), crate::json::integer_value(code)));
    err.push((owned("message"), string_value(message)));
    let mut es: Vec<(String, JsonValue)> = Vec::new();
    es.push((owned("jsonrpc"), string_value("2.0")));
    es.push((owned("id"), id));
    es.push((owned("error"), JsonValue::Object(err)));
    JsonValue::Object(es)
}

/// Names of the tools the server offers, in catalogue order.
pub open spec fn tool_names() -> Seq<Seq<char>> {
    seq![
        "frugal_get_session"@,
        "frugal_get_stats"@,
        "frugal_get_cost"@,
        "frugal_get_tools"@,
        "frugal_get_budget"@,
        "frugal_get_health"@,
        "frugal_get_waste"@,
        "frugal_get_providers"@,
        "frugal_checkpoint"@,
        "frugal_set_profile"@,
        "frugal_set_budget"@,
    ]
}

/// Descriptions of the tools, in catalogue order.
pub open spec fn tool_descriptions() -> Seq<Seq<char>> {
    seq![
        "Current/latest coding-assistant session: model, cost, context %, lines changed."@,
        "Full session economics: cost, context, per-tool calls, duplicate waste, budget health."@,
        "Spend: current session cost and today's total across sessions."@,
        "Per-tool analytics for today: calls, duplicates, estimated context tokens."@,
        "Configured task/session/daily USD budgets and current health."@,
        "Frugal health score (0-100) from context pressure, duplicate waste, and budget state."@,
        "Waste map: where avoidable context went today (duplicate calls by tool)."@,
        "Provider registry with trust class, capabilities, and installation status."@,
        "Create a semantic checkpoint file to fill in before compaction."@,
        "Set the optimization profile (shadow|conservative|balanced|aggressive|off)."@,
        "Set a USD budget. Scope: task|session|daily. Omit usd to clear."@,
    ]
}

/// The parameters of tool `i` of the catalogue: name, JSON type and
/// description, if any.
pub open spec fn tool_params(i: int) -> Seq<(Seq<char>, Seq<char>, Option<Seq<char>>)> {
    if i == 8 {
        seq![("note"@, "string"@, Some("short label for the checkpoint"@))]
    } else if i == 9 {
        seq![("profile"@, "string"@, None)]
    } else if i == 10 {
        seq![("scope"@, "string"@, None), ("usd"@, "number"@, None)]
    } else {
        seq![]
    }
}

/// The required parameter of tool `i` of the catalogue, if any.
pub open spec fn tool_required(i: int) -> Option<Seq<char>> {
    if i == 9 {
        Some("profile"@)
    } else if i == 10 {
        Some("scope"@)
    } else {
        None
    }
}

/// `v` is the schema `{"type": ty}`, with `"description"` when given.
pub open spec fn is_typed(v: JsonValue, ty: Seq<char>, description: Option<Seq<char>>) -> bool {
    &&& entry_count(v) == (if description is Some { 2int } else { 1int })
    &&& key_at(v, 0, "type"@) && is_text(value_at(v, 0), ty)
    &&& description matches Some(d) ==> key_at(v, 1, "description"@) && is_text(value_at(v, 1), d)
}

/// `v` is an object schema with these properties, in order, and with the
/// `"required"` list when a required parameter is given.
pub open spec fn is_object_schema(
    v: JsonValue,
    params: Seq<(Seq<char>, Seq<char>, Option<Seq<char>>)>,
    required: Option<Seq<char>>,
) -> bool {
    &&& entry_count(v) == (if required is Some { 3int } else { 2int })
    &&& key_at(v, 0, "type"@) && is_text(value_at(v, 0), "object"@)
    &&& key_at(v, 1, "properties"@) && entry_count(value_at(v, 1)) == params.len()
    &&& forall|k: int|
        0 <= k < params.len() ==> key_at(value_at(v, 1), k, (#[trigger] params[k]).0) && is_typed(
            value_at(value_at(v, 1), k),
            params[k].1,
            params[k].2,
        )
    &&& required matches Some(n) ==> key_at(v, 2, "required"@) && value_at(v, 2) is Array && value_at(
        v,
        2,
    )->Array_0@.len() == 1 && is_text(value_at(v, 2)->Array_0@[0], n)
}

/// `v` is tool `i` of the catalogue: its name, description and input schema.
pub open spec fn is_tool_definition(v: JsonValue, i: int) -> bool {
    &&& entry_count(v) == 3
    &&& key_at(v, 0, "name"@) && is_text(value_at(v, 0), tool_names()[i])
    &&& key_at(v, 1, "description"@) && is_text(value_at(v, 1), tool_descriptions()[i])
    &&& key_at(v, 2, "inputSchema"@) && is_object_schema(value_at(v, 2), tool_params(i), tool_required(i))
}

/// `v` is the tool catalogue.
pub open spec fn is_tool_catalogue(v: JsonValue) -> bool {
    &&& v is Array
    &&& v->Array_0@.len() == tool_names().len()
    &&& forall|i: int| 0 <= i < tool_names().len() ==> is_tool_definition(#[trigger] v->Array_0@[i], i)
}

fn tool_definition(name: &str, description: &str, schema: JsonValue) -> (r: JsonValue)
    ensures
        entry_count(r) == 3,
        key_at(r, 0, "name"@) && is_text(value_at(r, 0), name@),
        key_at(r, 1, "description"@) && is_text(value_at(r, 1), description@),
        key_at(r, 2, "inputSchema"@) && value_at(r, 2) == schema,
{
    let mut es: Vec<(String, JsonValue)> = Vec::new();
    es.push((owned("name"), string_value(name)));
    es.push((owned("description"), string_value(description)));
    es.push((owned("inputSchema"), schema));
    JsonValue::Object(es)
}

/// `{"type": "object", "properties": {}}`.
fn empty_schema() -> (r: JsonValue)
    ensures
        is_object_schema(r, seq![], None),
{
    let mut es: Vec<(String, JsonValue)> = Vec::new();
    es.push((owned("type"), string_value("object")));
    es.push((owned("properties"), JsonValue::Object(Vec::new())));
    JsonValue::Object(es)
}

/// `{"type": "object", "properties": properties}`, with `"required"` when given.
fn object_schema(
    properties: Vec<(String, JsonValue)>,
    required: Option<&str>,
    Ghost(params): Ghost<Seq<(Seq<char>, Seq<char>, Option<Seq<char>>)>>,
) -> (r: JsonValue)
    requires
        properties@.len() == params.len(),
        forall|k: int|
            0 <= k < params.len() ==> (#[trigger] properties@[k]).0@ == params[k].0 && is_typed(
                properties@[k].1,
                params[k].1,
                params[k].2,
            ),
    ensures
        is_object_schema(r, params, opt_str_view(required)),
{
    let mut es: Vec<(String, JsonValue)> = Vec::new();
    es.push((owned("type"), string_value("object")));
    es.push((owned("properties"), JsonValue::Object(properties)));
    if let Some(name) = required {
        let mut names: Vec<JsonValue> = Vec::new();
        names.push(string_value(name));
        es.push((owned("required"), JsonValue::Array(names)));
    }
    let r = JsonValue::Object(es);
    assert(value_at(r, 1)->Object_0@ == properties@);
    r
}

/// The view of an optional string.
pub open spec fn opt_str_view(s: Option<&str>) -> Option<Seq<char>> {
    match s {
        Some(t) => Some(t@),
        None => None,
    }
}

/// `{"type": ty}`, with a description when given.
fn typed(ty: &str, description: Option<&str>) -> (r: JsonValue)
    ensures
        is_typed(r, ty@, opt_str_view(description)),
{
    let mut es: Vec<(String, JsonValue)> = Vec::new();
    es.push((owned("type"), string_value(ty)));
    if let Some(d) = description {
        es.push((owned("description"), string_value(d)));
    }
    JsonValue::Object(es)
}

/// The tool catalogue announced on `tools/list`.
pub fn tool_definitions() -> (r: JsonValue)
    ensures
        is_tool_catalogue(r),
{
    let mut tools: Vec<JsonValue> = Vec::new();
    tools.push(tool_definition("frugal_get_session", "Current/latest coding-assistant session: model, cost, context %, lines changed.", empty_schema()));
    tools.push(tool_definition("frugal_get_stats", "Full session economics: cost, context, per-tool calls, duplicate waste, budget health.", empty_schema()));
    tools.push(tool_definition("frugal_get_cost", "Spend: current session cost and today's total across sessions.", empty_schema()));
    tools.push(tool_definition("frugal_get_tools", "Per-tool analytics for today: calls, duplicates, estimated context tokens.", empty_schema()));
    tools.push(tool_definition("frugal_get_budget", "Configured task/session/daily USD budgets and current health.", empty_schema()));
    tools.push(tool_definition("frugal_get_health", "Frugal health score (0-100) from context pressure, duplicate waste, and budget state.", empty_schema()));
    tools.push(tool_definition("frugal_get_waste", "Waste map: where avoidable context went today (duplicate calls by tool).", empty_schema()));
    tools.push(tool_definition("frugal_get_providers", "Provider registry with trust class, capabilities, and installation status.", empty_schema()));
    let mut note_props: Vec<(String, JsonValue)> = Vec::new();
    note_props.push((owned("note"), typed("string", Some("short label for the checkpoint"))));
    tools.push(tool_definition("frugal_checkpoint", "Create a semantic checkpoint file to fill in before compaction.", object_schema(note_props, None, Ghost(tool_params(8)))));
    let mut profile_props: Vec<(String, JsonValue)> = Vec::new();
    profile_props.push((owned("profile"), typed("string", None)));
    tools.push(tool_definition("frugal_set_profile", "Set the optimization profile (shadow|conservative|balanced|aggressive|off).", object_schema(profile_props, Some("profile"), Ghost(tool_params(9)))));
    let mut budget_props: Vec<(String, JsonValue)> = Vec::new();
    budget_props.push((owned("scope"), typed("string", None)));
    budget_props.push((owned("usd"), typed("number", None)));
    tools.push(tool_definition("frugal_set_budget", "Set a USD budget. Scope: task|session|daily. Omit usd to clear.", object_schema(budget_props, Some("scope"), Ghost(tool_params(10)))));
    let r = JsonValue::Array(tools);
    assert(r->Array_0@.len() == tool_names().len());
    r
}

/// `v` is the `initialize` result: protocol version, tool capability and
/// server name and version.
pub open spec fn is_init_result(v: JsonValue) -> bool {
    &&& entry_count(v) == 3
    &&& key_at(v, 0, "protocolVersion"@) && is_text(value_at(v, 0), PROTOCOL_VERSION@)
    &&& key_at(v, 1, "capabilities"@) && entry_count(value_at(v, 1)) == 1 && key_at(value_at(v, 1), 0, "tools"@)
    &&& key_at(v, 2, "serverInfo"@) && entry_count(value_at(v, 2)) == 2 && key_at(value_at(v, 2), 0, "name"@)
        && is_text(value_at(value_at(v, 2), 0), SERVER_NAME@) && key_at(value_at(v, 2), 1, "version"@)
        && is_text(value_at(value_at(v, 2), 1), SERVER_VERSION@)
}

fn init_result() -> (r: JsonValue)
    ensures
        is_init_result(r),
{
    let mut caps: Vec<(String, JsonValue)> = Vec::new();
    caps.push((owned("tools"), JsonValue::Object(Vec::new())));
    let mut info: Vec<(String, JsonValue)> = Vec::new();
    info.push((owned("name"), string_value(SERVER_NAME)));
    info.push((owned("version"), string_value(SERVER_VERSION)));
    let mut es: Vec<(String, JsonValue)> = Vec::new();
    es.push((owned("protocolVersion"), string_value(PROTOCOL_VERSION)));
    es.push((owned("capabilities"), JsonValue::Object(caps)));
    es.push((owned("serverInfo"), JsonValue::Object(info)));
    JsonValue::Object(es)
}

/// What the server does with a message.
pub enum McpReply {
    /// A notification: nothing is sent back.
    NoReply,
    /// Send this reply.
    Reply(JsonValue),
    /// Run the named tool with these arguments, then reply to `id` with
    /// `tool_call_reply`.
    CallTool { id: JsonValue, name: String, args: JsonValue },
}

/// The method a message names (empty when none).
pub open spec fn message_method(msg: JsonValue) -> Seq<char> {
    str_or(msg, "method"@, ""@)
}

/// The request id of a message (`Null` when none).
pub open spec fn message_id(msg: JsonValue) -> JsonValue {
    field_or_null(msg, "id"@)
}

/// What `handle_message` answers to `msg`: notifications (no id) get no
/// reply; `initialize`, `tools/list` and `ping` are answered; `tools/call`
/// asks for the named tool with its arguments; any other method gets a
/// method-not-found error.
pub open spec fn handles(msg: JsonValue, r: McpReply) -> bool {
    &&& (message_id(msg) is Null ==> r is NoReply)
    &&& (!(message_id(msg) is Null) && message_method(msg) == "initialize"@ ==> (r matches McpReply::Reply(v)
            && is_reply(v, message_id(msg), "result"@) && is_init_result(value_at(v, 2))))
    &&& (!(message_id(msg) is Null) && message_method(msg) == "tools/list"@ ==> (r matches McpReply::Reply(v)
            && is_reply(v, message_id(msg), "result"@) && entry_count(value_at(v, 2)) == 1 && key_at(
            value_at(v, 2),
            0,
            "tools"@,
        ) && is_tool_catalogue(value_at(value_at(v, 2), 0))))
    &&& (!(message_id(msg) is Null) && message_method(msg) == "tools/call"@ ==> (r matches McpReply::CallTool {
            id,
            name,
            args,
        } && canonical_json(id) == canonical_json(message_id(msg)) && name@ == str_or(
            field_or_null(msg, "params"@),
            "name"@,
            ""@,
        ) && canonical_json(args) == canonical_json(
            field_or_null(field_or_null(msg, "params"@), "arguments"@),
        )))
    &&& (!(message_id(msg) is Null) && message_method(msg) == "ping"@ ==> (r matches McpReply::Reply(v)
            && is_reply(v, message_id(msg), "result"@) && value_at(v, 2) is Object && entry_count(
            value_at(v, 2),
        ) == 0))
    &&& (!(message_id(msg) is Null) && message_method(msg) != "initialize"@ && message_method(msg)
            != "tools/list"@ && message_method(msg) != "tools/call"@ && message_method(msg) != "ping"@ ==> (
        r matches McpReply::Reply(v) && is_reply(v, message_id(msg), "error"@) && is_error_object(
            value_at(v, 2),
            METHOD_NOT_FOUND,
            "method not found: "@ + message_method(msg),
        )))
}

/// Dispatches one JSON-RPC message: notifications (no id) get no reply;
/// `initialize`, `tools/list` and `ping` are answered here; `tools/call`
/// asks for the tool to be run; any other method gets a method-not-found
/// error.
pub fn handle_message(msg: &JsonValue) -> (r: McpReply)
    ensures
        handles(*msg, r),
{
    let method = get_str_or(msg, "method", "");
    let id = match get(msg, "id") {
        Some(x) => copy_json(x),
        None => JsonValue::Null,
    };
    if let JsonValue::Null = id {
        return McpReply::NoReply;
    }
    proof {
        reveal_strlit("initialize");
        reveal_strlit("tools/list");
        reveal_strlit("tools/call");
        reveal_strlit("ping");
        assert("initialize"@.len() == 10 && "tools/list"@.len() == 10 && "tools/call"@.len() == 10
            && "ping"@.len() == 4);
        assert("tools/list"@[6] == 'l' && "tools/call"@[6] == 'c' && "initialize"@[0] == 'i');
    }
    if str_equal(method.as_str(), "initialize") {
        McpReply::Reply(response(id, init_result()))
    } else if str_equal(method.as_str(), "tools/list") {
        let mut es: Vec<(String, JsonValue)> = Vec::new();
        es.push((owned("tools"), tool_definitions()));
        McpReply::Reply(response(id, JsonValue::Object(es)))
    } else if str_equal(method.as_str(), "tools/call") {
        let null = JsonValue::Null;
        let params = match get(msg, "params") {
            Some(p) => p,
            None => &null,
        };
        let name = get_str_or(params, "name", "");
        let args = match get(params, "arguments") {
            Some(a) => copy_json(a),
            None => JsonValue::Null,
        };
        McpReply::CallTool { id, name, args }
    } else if str_equal(method.as_str(), "ping") {
        McpReply::Reply(response(id, JsonValue::Object(Vec::new())))
    } else {
        let mut message = owned("method not found: ");
        append(&mut message, method.as_str());
        McpReply::Reply(error_response(id, METHOD_NOT_FOUND, message.as_str()))
    }
}

/// One line of the stdio server: blank lines and lines that are not JSON are
/// skipped (no reply); any other line is handled as a message.
pub fn serve_step(line: &str) -> (r: McpReply)
    ensures
        crate::text::is_blank(line@) ==> r is NoReply,
        !crate::text::is_blank(line@) && crate::json::parsed_json(line@) is None ==> r is NoReply,
        !crate::text::is_blank(line@) && crate::json::parsed_json(line@) is Some ==> handles(
            crate::json::parsed_json(line@)->0,
            r,
        ),
{
    if crate::text::blank(line) {
        return McpReply::NoReply;
    }
    match crate::json::parse_json(line) {
        Some(msg) => handle_message(&msg),
        None => McpReply::NoReply,
    }
}

/// `v` is a tool-call result holding one text item with `text`, marked as
/// an error when `is_error`.
pub open spec fn is_text_content(v: JsonValue, text: Seq<char>, is_error: bool) -> bool {
    &&& entry_count(v) == (if is_error { 2int } else { 1int })
    &&& key_at(v, 0, "content"@) && value_at(v, 0) is Array && value_at(v, 0)->Array_0@.len() == 1
    &&& entry_count(value_at(v, 0)->Array_0@[0]) == 2
    &&& key_at(value_at(v, 0)->Array_0@[0], 0, "type"@) && is_text(value_at(value_at(v, 0)->Array_0@[0], 0), "text"@)
    &&& key_at(value_at(v, 0)->Array_0@[0], 1, "text"@) && is_text(value_at(value_at(v, 0)->Array_0@[0], 1), text)
    &&& is_error ==> key_at(v, 1, "isError"@) && value_at(v, 1) == JsonValue::Bool(true)
}

/// The reply to a tool call: its result's compact JSON as text, or
/// `error: <message>` marked as an error.
pub fn tool_call_reply(id: JsonValue, outcome: Result<JsonValue, String>) -> (r: JsonValue)
    ensures
        is_reply(r, id, "result"@),
        outcome matches Ok(v) ==> is_text_content(value_at(r, 2), canonical_json(v), false),
        outcome matches Err(e) ==> is_text_content(value_at(r, 2), "error: "@ + e@, true),
{
    let (text, is_error) = match &outcome {
        Ok(v) => (canonical(v), false),
        Err(e) => {
            let mut t = owned("error: ");
            append(&mut t, e.as_str());
            (t, true)
        },
    };
    let mut item: Vec<(String, JsonValue)> = Vec::new();
    item.push((owned("type"), string_value("text")));
    item.push((owned("text"), JsonValue::String(text)));
    let mut content: Vec<JsonValue> = Vec::new();
    content.push(JsonValue::Object(item));
    let mut es: Vec<(String, JsonValue)> = Vec::new();
    es.push((owned("content"), JsonValue::Array(content)));
    if is_error {
        es.push((owned("isError"), JsonValue::Bool(true)));
    }
    response(id, JsonValue::Object(es))
}


/// A tool call, as the server understands it.
pub enum ToolRequest {
    GetSession,
    GetStats,
    GetCost,
    GetTools,
    GetBudget,
    GetHealth,
    GetWaste,
    GetProviders,
    /// Write a checkpoint with this note.
    Checkpoint { note: String },
    /// Set this profile.
    SetProfile { profile: String },
    /// Set (with the number text of `usd`) or clear a budget.
    SetBudget { scope: String, usd: Option<String> },
    /// A tool the server does not offer.
    Unknown { name: String },
}

/// The JSON text of `v[key]` when it is a number.
pub open spec fn number_field(v: JsonValue, key: Seq<char>) -> Option<Seq<char>> {
    match crate::json::lookup(v, key) {
        Some(JsonValue::Number(t)) => Some(t@),
        _ => None,
    }
}

/// Position of `name` in the tool catalogue from position `k` on (the first
/// match), or -1.
pub open spec fn tool_index_from(name: Seq<char>, k: int) -> int
    decreases 11 - k,
{
    if k < 0 || k >= 11 {
        -1
    } else if tool_names()[k] == name {
        k
    } else {
        tool_index_from(name, k + 1)
    }
}

/// Position of `name` in the tool catalogue, or -1 when it is not there.
pub open spec fn tool_index(name: Seq<char>) -> int {
    tool_index_from(name, 0)
}

/// Reads a `tools/call` request: the catalogue tool it names, with its
/// arguments (the note defaults to `via MCP`, profile and scope to empty).
pub fn parse_tool_call(name: &str, args: &JsonValue) -> (r: ToolRequest)
    ensures
        tool_index(name@) == 0 ==> r is GetSession,
        tool_index(name@) == 1 ==> r is GetStats,
        tool_index(name@) == 2 ==> r is GetCost,
        tool_index(name@) == 3 ==> r is GetTools,
        tool_index(name@) == 4 ==> r is GetBudget,
        tool_index(name@) == 5 ==> r is GetHealth,
        tool_index(name@) == 6 ==> r is GetWaste,
        tool_index(name@) == 7 ==> r is GetProviders,
        tool_index(name@) == 8 ==> (r matches ToolRequest::Checkpoint { note } && note@ == str_or(
            *args,
            "note"@,
            "via MCP"@,
        )),
        tool_index(name@) == 9 ==> (r matches ToolRequest::SetProfile { profile } && profile@ == str_or(
            *args,
            "profile"@,
            ""@,
        )),
        tool_index(name@) == 10 ==> (r matches ToolRequest::SetBudget { scope, usd } && scope@ == str_or(
            *args,
            "scope"@,
            ""@,
        ) && crate::providers::opt_text(usd) == number_field(*args, "usd"@)),
        tool_index(name@) == -1 ==> (r matches ToolRequest::Unknown { name: n } && n@ == name@),
{
    proof {
        reveal_with_fuel(tool_index_from, 12);
    }
    if str_equal(name, "frugal_get_session") {
        return ToolRequest::GetSession;
    }
    if str_equal(name, "frugal_get_stats") {
        return ToolRequest::GetStats;
    }
    if str_equal(name, "frugal_get_cost") {
        return ToolRequest::GetCost;
    }
    if str_equal(name, "frugal_get_tools") {
        return ToolRequest::GetTools;
    }
    if str_equal(name, "frugal_get_budget") {
        return ToolRequest::GetBudget;
    }
    if str_equal(name, "frugal_get_health") {
        return ToolRequest::GetHealth;
    }
    if str_equal(name, "frugal_get_waste") {
        return ToolRequest::GetWaste;
    }
    if str_equal(name, "frugal_get_providers") {
        return ToolRequest::GetProviders;
    }
    if str_equal(name, "frugal_checkpoint") {
        return ToolRequest::Checkpoint { note: get_str_or(args, "note", "via MCP") };
    }
    if str_equal(name, "frugal_set_profile") {
        return ToolRequest::SetProfile { profile: get_str_or(args, "profile", "") };
    }
    if str_equal(name, "frugal_set_budget") {
        let usd = match get(args, "usd") {
            Some(JsonValue::Number(t)) => Some(t.clone()),
            _ => None,
        };
        return ToolRequest::SetBudget { scope: get_str_or(args, "scope", ""), usd };
    }
    ToolRequest::Unknown { name: owned(name) }
}

/// `v` is the object `{key: "<text>"}`.
pub open spec fn is_single_text(v: JsonValue, key: Seq<char>, text: Seq<char>) -> bool {
    entry_count(v) == 1 && key_at(v, 0, key) && is_text(value_at(v, 0), text)
}

/// `{key: text}`.
pub fn single_text(key: &str, text: &str) -> (r: JsonValue)
    ensures
        is_single_text(r, key@, text@),
{
    let mut es: Vec<(String, JsonValue)> = Vec::new();
    es.push((owned(key), string_value(text)));
    JsonValue::Object(es)
}

/// The result for a tool the server does not offer.
pub fn unknown_tool_result(name: &str) -> (r: JsonValue)
    ensures
        is_single_text(r, "error"@, "unknown tool "@ + name@),
{
    let mut m = owned("unknown tool ");
    append(&mut m, name);
    single_text("error", m.as_str())
}

/// The result of a session query before any session was recorded.
pub fn no_sessions_result() -> (r: JsonValue)
    ensures
        is_single_text(r, "error"@, "no sessions recorded yet"@),
{
    single_text("error", "no sessions recorded yet")
}

/// The result of `frugal_checkpoint`: the file written and what to do next.
pub fn checkpoint_result(path: &str) -> (r: JsonValue)
    ensures
        entry_count(r) == 2,
        key_at(r, 0, "checkpoint"@) && is_text(value_at(r, 0), path@),
        key_at(r, 1, "next"@) && is_text(value_at(r, 1), "fill in objective/decisions/errors before compacting"@),
{
    let mut es: Vec<(String, JsonValue)> = Vec::new();
    es.push((owned("checkpoint"), string_value(path)));
    es.push((owned("next"), string_value("fill in objective/decisions/errors before compacting")));
    JsonValue::Object(es)
}

/// The result of `frugal_get_health`.
pub fn health_result(score: i64) -> (r: JsonValue)
    ensures
        entry_count(r) == 1,
        key_at(r, 0, "health_score"@) && value_at(r, 0) is Number && value_at(r, 0)->Number_0@
            == crate::text::decimal(score as int),
{
    let mut es: Vec<(String, JsonValue)> = Vec::new();
    es.push((owned("health_score"), crate::json::integer_value(score)));
    JsonValue::Object(es)
}

/// `v` reports the tool row `t`.
pub open spec fn is_tool_row(v: JsonValue, t: crate::ledger::ToolRow) -> bool {
    &&& entry_count(v) == 4
    &&& key_at(v, 0, "tool"@) && is_text(value_at(v, 0), t.tool@)
    &&& key_at(v, 1, "calls"@) && value_at(v, 1) is Number && value_at(v, 1)->Number_0@ == crate::text::decimal(
        t.calls as int,
    )
    &&& key_at(v, 2, "duplicates"@) && value_at(v, 2) is Number && value_at(v, 2)->Number_0@
        == crate::text::decimal(t.duplicates as int)
    &&& key_at(v, 3, "est_tokens"@) && value_at(v, 3) is Number && value_at(v, 3)->Number_0@
        == crate::text::decimal(t.est_tokens as int)
}

/// The result of `frugal_get_tools`: one object per tool row, in order.
pub fn tools_result(rows: &Vec<crate::ledger::ToolRow>) -> (r: JsonValue)
    ensures
        r is Array,
        r->Array_0@.len() == rows@.len(),
        forall|i: int| 0 <= i < rows@.len() ==> is_tool_row(#[trigger] r->Array_0@[i], rows@[i]),
{
    let mut items: Vec<JsonValue> = Vec::new();
    for i in 0..rows.len()
        invariant
            items@.len() == i,
            forall|k: int| 0 <= k < i ==> is_tool_row(#[trigger] items@[k], rows@[k]),
    {
        let t = &rows[i];
        let mut es: Vec<(String, JsonValue)> = Vec::new();
        es.push((owned("tool"), string_value(t.tool.as_str())));
        es.push((owned("calls"), crate::json::integer_value(t.calls)));
        es.push((owned("duplicates"), crate::json::integer_value(t.duplicates)));
        es.push((owned("est_tokens"), crate::json::integer_value(t.est_tokens)));
        items.push(JsonValue::Object(es));
    }
    JsonValue::Array(items)
}

} // verus!
