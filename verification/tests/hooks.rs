use frugal::hooks::{
    action_message, estimate_tokens, fingerprint, plan_ingest, tool_call_outcome, IngestAction,
};
use frugal::json::{canonical, JsonValue};

fn s(t: &str) -> JsonValue {
    JsonValue::String(t.to_string())
}

fn n(t: &str) -> JsonValue {
    JsonValue::Number(t.to_string())
}

fn obj(entries: Vec<(&str, JsonValue)>) -> JsonValue {
    JsonValue::Object(entries.into_iter().map(|(k, v)| (k.to_string(), v)).collect())
}

#[test]
fn fingerprint_is_order_insensitive() {
    let a = obj(vec![("b", n("1")), ("a", obj(vec![("y", n("2")), ("x", n("3"))]))]);
    let b = obj(vec![("a", obj(vec![("x", n("3")), ("y", n("2"))])), ("b", n("1"))]);
    assert_eq!(fingerprint("Read", &a), fingerprint("Read", &b));
}

#[test]
fn fingerprint_differs_by_tool_and_input() {
    let input = obj(vec![("file_path", s("a.ts"))]);
    assert_ne!(fingerprint("Read", &input), fingerprint("Grep", &input));
    assert_ne!(
        fingerprint("Read", &obj(vec![("file_path", s("a.ts"))])),
        fingerprint("Read", &obj(vec![("file_path", s("b.ts"))]))
    );
}

#[test]
fn fingerprint_exact_values() {
    assert_eq!(fingerprint("Read", &obj(vec![("file_path", s("a.ts"))])), "797be2e2c2a5a2eb");
    let a = obj(vec![("b", n("1")), ("a", obj(vec![("y", n("2")), ("x", n("3"))]))]);
    assert_eq!(fingerprint("Read", &a), "2304428fd140b54c");
    assert_eq!(fingerprint("?", &JsonValue::Null), "d2babbd0d78ea0c6");
}

#[test]
fn canonical_sorts_keys_at_every_level() {
    let a = obj(vec![("b", n("1")), ("a", obj(vec![("y", n("2")), ("x", n("3"))]))]);
    assert_eq!(canonical(&a), r#"{"a":{"x":3,"y":2},"b":1}"#);
    let arr = JsonValue::Array(vec![JsonValue::Bool(true), JsonValue::Null, s("q\"uote"), JsonValue::Bool(false)]);
    assert_eq!(canonical(&arr), r#"[true,null,"q\"uote",false]"#);
    assert_eq!(canonical(&JsonValue::Array(vec![])), "[]");
    assert_eq!(canonical(&obj(vec![])), "{}");
}

#[test]
fn canonical_matches_serde_compact_output() {
    let v = obj(vec![("zeta", n("-2.5")), ("alpha", JsonValue::Array(vec![s("é"), n("10")])), ("mid", JsonValue::Null)]);
    let parsed: serde_json::Value =
        serde_json::from_str(r#"{"zeta": -2.5, "alpha": ["é", 10], "mid": null}"#).unwrap();
    let expected = parsed.to_string();
    assert_eq!(canonical(&v), expected);
}

#[test]
fn estimate_tokens_is_a_quarter_of_the_bytes() {
    // {"file_path":"a.ts"} is 20 bytes.
    assert_eq!(estimate_tokens(&obj(vec![("file_path", s("a.ts"))])), 5);
    // "null" is 4 bytes; "é" counts two bytes.
    assert_eq!(estimate_tokens(&JsonValue::Null), 1);
    assert_eq!(estimate_tokens(&s("éé")), 1);
    assert_eq!(estimate_tokens(&n("12")), 0);
}

#[test]
fn plan_for_post_tool_use() {
    let payload = obj(vec![
        ("session_id", s("sess-1")),
        ("hook_event_name", s("PostToolUse")),
        ("cwd", s("/work")),
        ("tool_name", s("Read")),
        ("tool_input", obj(vec![("file_path", s("a.ts"))])),
        ("tool_response", s("0123456789")),
    ]);
    let plan = plan_ingest(&payload);
    assert_eq!(plan.session_id, "sess-1");
    assert_eq!(plan.cwd, "/work");
    match plan.action {
        IngestAction::RecordToolCall { tool, fingerprint: fp, est_tokens } => {
            assert_eq!(tool, "Read");
            assert_eq!(fp, "797be2e2c2a5a2eb");
            assert_eq!(est_tokens, 3);
        }
        _ => panic!("expected a tool call"),
    }
}

#[test]
fn plan_defaults_and_other_events() {
    let plan = plan_ingest(&obj(vec![("hook_event_name", s("PostToolUse"))]));
    assert_eq!(plan.session_id, "unknown");
    assert_eq!(plan.cwd, "");
    match plan.action {
        IngestAction::RecordToolCall { tool, fingerprint: fp, est_tokens } => {
            assert_eq!(tool, "?");
            assert_eq!(fp, "d2babbd0d78ea0c6");
            assert_eq!(est_tokens, 1);
        }
        _ => panic!("expected a tool call"),
    }
    let pre = plan_ingest(&obj(vec![("hook_event_name", s("PreCompact"))]));
    assert!(matches!(pre.action, IngestAction::PreCompactCheckpoint));
    assert_eq!(action_message(&pre.action), "pre-compaction checkpoint");
    for e in ["SessionStart", "SessionEnd", "Stop"] {
        let p = plan_ingest(&obj(vec![("hook_event_name", s(e))]));
        assert_eq!(action_message(&p.action), format!("recorded {e}"));
        assert!(matches!(p.action, IngestAction::LogLifecycle { .. }));
    }
    let other = plan_ingest(&obj(vec![("hook_event_name", s("Notification"))]));
    assert_eq!(action_message(&other.action), "ignored Notification");
    let none = plan_ingest(&n("3"));
    assert_eq!(action_message(&none.action), "ignored ");
}

#[test]
fn repeated_call_outcome() {
    let first = tool_call_outcome("Read", 0);
    assert!(first.event.is_none());
    assert_eq!(first.message, "recorded Read");
    let again = tool_call_outcome("Read", 2);
    assert_eq!(again.message, "duplicate Read (x3)");
    let (kind, detail) = again.event.unwrap();
    assert_eq!(kind, "duplicate_tool_call");
    assert_eq!(detail, "Read repeated with identical input (x3)");
}

#[test]
fn canonical_escapes_strings_as_serde_json() {
    let v = s("a\"b\\c\n\t\r\u{8}\u{c}\u{1}\u{1f} é\u{7f}");
    assert_eq!(canonical(&v), "\"a\\\"b\\\\c\\n\\t\\r\\b\\f\\u0001\\u001f é\u{7f}\"");
    let k = obj(vec![("k\n", s("v"))]);
    assert_eq!(canonical(&k), "{\"k\\n\":\"v\"}");
    assert_eq!(estimate_tokens(&s("\u{1}\u{1}")), 3);
}

#[test]
fn fingerprint_is_sixteen_hex_digits() {
    let fp = fingerprint("Read", &obj(vec![("file_path", s("a.ts"))]));
    assert_eq!(fp.len(), 16);
    assert!(fp.chars().all(|c| c.is_ascii_digit() || ('a'..='f').contains(&c)));
}

#[test]
fn plans_ignore_raw_input_beyond_what_is_recorded() {
    let p1 = obj(vec![
        ("session_id", s("s")),
        ("hook_event_name", s("PostToolUse")),
        ("tool_name", s("Read")),
        ("tool_input", obj(vec![("file_path", s("a.ts")), ("limit", n("5"))])),
        ("tool_response", s("abcdefgh")),
    ]);
    let p2 = obj(vec![
        ("session_id", s("s")),
        ("hook_event_name", s("PostToolUse")),
        ("tool_name", s("Read")),
        ("tool_input", obj(vec![("limit", n("5")), ("file_path", s("a.ts"))])),
        ("tool_response", s("12345678")),
    ]);
    match (plan_ingest(&p1).action, plan_ingest(&p2).action) {
        (
            IngestAction::RecordToolCall { tool: t1, fingerprint: f1, est_tokens: e1 },
            IngestAction::RecordToolCall { tool: t2, fingerprint: f2, est_tokens: e2 },
        ) => {
            assert_eq!(t1, t2);
            assert_eq!(f1, f2);
            assert_eq!(e1, e2);
        }
        _ => panic!("expected tool-call records"),
    }
}

#[test]
fn repeated_identical_calls_count_up() {
    let a = obj(vec![("file_path", s("a.ts")), ("limit", n("5"))]);
    let b = obj(vec![("limit", n("5")), ("file_path", s("a.ts"))]);
    assert_eq!(fingerprint("Read", &a), fingerprint("Read", &b));
    assert_eq!(tool_call_outcome("Read", 0).message, "recorded Read");
    let second = tool_call_outcome("Read", 1);
    assert_eq!(second.message, "duplicate Read (x2)");
    assert_eq!(second.event, Some(("duplicate_tool_call".to_string(), "Read repeated with identical input (x2)".to_string())));
    assert_eq!(tool_call_outcome("Read", 2).message, "duplicate Read (x3)");
}
