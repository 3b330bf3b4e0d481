use frugal::json::JsonValue;
use frugal::providers::{
    detection_probe, find_result, mcp_configured_in, mcp_configured_text, merge_registry, resolve, Probe, Provider,
};

fn provider(id: &str, caps: &[&str], priority: i64) -> Provider {
    Provider {
        id: id.into(),
        name: id.into(),
        trust: "COMMUNITY".into(),
        capabilities: caps.iter().map(|c| c.to_string()).collect(),
        conflicts: vec![],
        priority,
        detect: vec![],
        install: String::new(),
        repo: String::new(),
        fixed_context_tax_tokens: 0,
    }
}

fn s(t: &str) -> JsonValue {
    JsonValue::String(t.to_string())
}

fn obj(entries: Vec<(&str, JsonValue)>) -> JsonValue {
    JsonValue::Object(entries.into_iter().map(|(k, v)| (k.to_string(), v)).collect())
}

#[test]
fn exclusive_capability_drops_lower_priority() {
    let a = provider("a", &["compression.document"], 90);
    let b = provider("b", &["compression.document"], 60);
    let c = provider("c", &["navigation.ast"], 50);
    let (active, dropped) = resolve(&[&a, &b, &c]);
    assert_eq!(active, vec!["a", "c"]);
    assert_eq!(dropped.len(), 1);
    assert_eq!(dropped[0].0, "b");
}

#[test]
fn resolve_considers_priority_then_id_whatever_the_input_order() {
    let a = provider("a", &["compression.document"], 90);
    let b = provider("b", &["compression.document"], 60);
    let c = provider("c", &["navigation.ast"], 50);
    let (active, dropped) = resolve(&[&c, &b, &a]);
    assert_eq!(active, vec!["a", "c"]);
    assert_eq!(dropped, vec![("b".to_string(), "exclusive capability compression.document already provided by a".to_string())]);
    let x = provider("x", &["request_proxy"], 10);
    let w = provider("w", &["request_proxy"], 10);
    let (active, dropped) = resolve(&[&x, &w]);
    assert_eq!(active, vec!["w"]);
    assert_eq!(dropped[0].0, "x");
}

#[test]
fn blocked_and_conflicting_providers_are_dropped() {
    let mut blocked = provider("evil", &[], 100);
    blocked.trust = "BLOCKED".into();
    let mut graph = provider("graph", &["navigation.graph"], 80);
    graph.conflicts = vec!["wiki".into()];
    let wiki = provider("wiki", &["docs.wiki"], 70);
    let shared = provider("shared", &["navigation.graph"], 60);
    let (active, dropped) = resolve(&[&wiki, &shared, &graph, &blocked]);
    assert_eq!(active, vec!["graph", "shared"]);
    assert_eq!(
        dropped,
        vec![
            ("evil".to_string(), "trust class BLOCKED".to_string()),
            ("wiki".to_string(), "explicit conflict with graph".to_string()),
        ]
    );
    let (active, dropped) = resolve(&[]);
    assert!(active.is_empty() && dropped.is_empty());
}

#[test]
fn registry_later_layers_override_and_order_by_priority() {
    let mut old = provider("graphify", &[], 10);
    old.install = "old".into();
    let mut new = provider("graphify", &[], 95);
    new.install = "new".into();
    let layers = vec![old, provider("token-saver", &[], 50), provider("alpha", &[], 50), new];
    let reg = merge_registry(layers);
    let ids: Vec<&str> = reg.iter().map(|p| p.id.as_str()).collect();
    assert_eq!(ids, vec!["graphify", "alpha", "token-saver"]);
    assert_eq!(reg[0].install, "new");
    assert_eq!(reg[0].priority, 95);
}

#[test]
fn find_result_by_id() {
    let reg = merge_registry(vec![provider("a", &[], 1), provider("b", &[], 2)]);
    assert_eq!(find_result(reg, "a").ok().unwrap().id, "a");
    let reg = merge_registry(vec![provider("a", &[], 1)]);
    let err = find_result(reg, "zz").err().unwrap();
    assert_eq!(err.message(), "unknown provider \"zz\"");
}

#[test]
fn detection_probe_precedence() {
    let mut p = provider("p", &[], 0);
    assert!(detection_probe(&p).is_none());
    p.detect = vec![("mcp".into(), s("deepwiki")), ("skill".into(), s("graphify"))];
    match detection_probe(&p) {
        Some(Probe::Skill(name)) => assert_eq!(name, "graphify"),
        _ => panic!("expected a skill probe"),
    }
    p.detect.push(("which".into(), s("ast-grep")));
    match detection_probe(&p) {
        Some(Probe::Which(cmd)) => assert_eq!(cmd, "ast-grep"),
        _ => panic!("expected a which probe"),
    }
    p.detect = vec![("which".into(), JsonValue::Bool(true)), ("mcp".into(), s("deepwiki"))];
    match detection_probe(&p) {
        Some(Probe::Mcp(name)) => assert_eq!(name, "deepwiki"),
        _ => panic!("expected an mcp probe"),
    }
}

#[test]
fn mcp_configuration_lookup() {
    let top = obj(vec![("mcpServers", obj(vec![("deepwiki", obj(vec![]))]))]);
    assert!(mcp_configured_in(&top, "deepwiki"));
    assert!(!mcp_configured_in(&top, "other"));
    let nested = obj(vec![(
        "projects",
        obj(vec![("/a", obj(vec![])), ("/b", obj(vec![("mcpServers", obj(vec![("graph", JsonValue::Null)]))]))]),
    )]);
    assert!(mcp_configured_in(&nested, "graph"));
    assert!(!mcp_configured_in(&nested, "deepwiki"));
    assert!(!mcp_configured_in(&JsonValue::Null, "graph"));
}

#[test]
fn resolution_ignores_input_order() {
    let a = provider("a", &["compression.document"], 60);
    let b = provider("b", &["compression.document"], 60);
    let c = provider("c", &["navigation.ast"], 90);
    let first = resolve(&[&a, &b, &c]);
    let second = resolve(&[&c, &b, &a]);
    let third = resolve(&[&b, &c, &a]);
    assert_eq!(first, second);
    assert_eq!(first, third);
    assert_eq!(first.0, vec!["c", "a"]);
    assert_eq!(first.1.len(), 1);
    assert_eq!(first.1[0].0, "b");
}

#[test]
fn mcp_configuration_text() {
    assert!(mcp_configured_text(r#"{"mcpServers":{"graphify":{}}}"#, "graphify"));
    assert!(mcp_configured_text(r#"{"projects":{"/p":{"mcpServers":{"graphify":{"command":"x"}}}}}"#, "graphify"));
    assert!(!mcp_configured_text(r#"{"mcpServers":{"other":{}}}"#, "graphify"));
    assert!(!mcp_configured_text("not json", "graphify"));
}
