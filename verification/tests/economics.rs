use frugal::economics::{
    health_score, tool_stats, waste_by_tool, waste_summary, HealthInputs, PressureLevel,
};
use frugal::json::canonical;
use frugal::ledger::ToolRow;
use frugal::policy::BudgetHealth;

fn row(tool: &str, calls: i64, duplicates: i64, est_tokens: i64) -> ToolRow {
    ToolRow { tool: tool.into(), calls, duplicates, est_tokens }
}

#[test]
fn health_score_without_session_is_full() {
    assert_eq!(health_score(&None), 100);
}

#[test]
fn health_score_penalties() {
    let h = |pressure, duplicate_calls, budget| health_score(&Some(HealthInputs { pressure, duplicate_calls, budget }));
    assert_eq!(h(None, 0, BudgetHealth::Within), 100);
    assert_eq!(h(Some(PressureLevel::Green), 0, BudgetHealth::Within), 100);
    assert_eq!(h(Some(PressureLevel::Yellow), 0, BudgetHealth::Within), 95);
    assert_eq!(h(Some(PressureLevel::Orange), 1, BudgetHealth::Within), 88);
    assert_eq!(h(Some(PressureLevel::Red), 3, BudgetHealth::Warning), 64);
    assert_eq!(h(Some(PressureLevel::Critical), 50, BudgetHealth::Exceeded), 30);
    assert_eq!(h(Some(PressureLevel::Critical), 10, BudgetHealth::Exceeded), 30);
}

#[test]
fn health_score_floor_and_negative_counts() {
    // A negative repeat count lowers the penalty, as the arithmetic says.
    assert_eq!(
        health_score(&Some(HealthInputs { pressure: None, duplicate_calls: -5, budget: BudgetHealth::Within })),
        110
    );
}

#[test]
fn pressure_labels() {
    assert_eq!(PressureLevel::Critical.label(), "CRITICAL");
    assert_eq!(PressureLevel::Red.label(), "RED");
    assert_eq!(PressureLevel::Orange.label(), "ORANGE");
    assert_eq!(PressureLevel::Yellow.label(), "YELLOW");
    assert_eq!(PressureLevel::Green.label(), "GREEN");
}

#[test]
fn waste_per_tool() {
    let rows = vec![row("Read", 4, 2, 1000), row("Grep", 3, 0, 90), row("Bash", 0, 1, 7), row("Edit", 3, 1, -10)];
    let w = waste_by_tool(&rows);
    assert_eq!(w.len(), 3);
    assert_eq!(w[0].tool, "Read");
    assert_eq!(w[0].duplicate_calls, 2);
    assert_eq!(w[0].est_wasted_tokens, 500);
    assert_eq!(w[1].tool, "Bash");
    assert_eq!(w[1].est_wasted_tokens, 7);
    assert_eq!(w[2].est_wasted_tokens, -3);
}

#[test]
fn waste_summary_json() {
    let rows = vec![row("Read", 4, 2, 1000), row("Grep", 3, 0, 90)];
    assert_eq!(
        canonical(&waste_summary("2024-05-01", &rows)),
        r#"{"date":"2024-05-01","duplicate_waste_by_tool":[{"duplicate_calls":2,"est_wasted_tokens":500,"tool":"Read"}],"note":"duplicate tool calls = identical tool+input repeated within a session"}"#
    );
}

#[test]
fn tool_stats_copy_rows() {
    let stats = tool_stats(vec![row("Read", 4, 2, 1000), row("Grep", 3, 0, 90)]);
    assert_eq!(stats.len(), 2);
    assert_eq!(stats[1].tool, "Grep");
    assert_eq!(stats[1].calls, 3);
    assert_eq!(stats[0].est_tokens, 1000);
}

#[test]
fn health_score_never_rises_with_more_waste() {
    let h = |pressure, duplicate_calls, budget| health_score(&Some(HealthInputs { pressure, duplicate_calls, budget }));
    let base = h(Some(PressureLevel::Yellow), 2, BudgetHealth::Within);
    assert_eq!(base, 91);
    assert!(h(Some(PressureLevel::Yellow), 3, BudgetHealth::Within) <= base);
    assert!(h(Some(PressureLevel::Red), 2, BudgetHealth::Within) <= base);
    assert!(h(Some(PressureLevel::Yellow), 2, BudgetHealth::Warning) <= base);
    assert_eq!(h(Some(PressureLevel::Critical), 10, BudgetHealth::Exceeded), 30);
}
