use frugal::cli::{
    budget_command, checkpoint_line, checkpoint_note, doctor_exit_code, doctor_score, first_chars,
    profile_command, profile_set_message, report_is_monthly, status_line, tool_line, BudgetCommand,
    CliError, ProfileCommand, StatusInputs,
};
use frugal::economics::ToolStat;
use frugal::ledger::CheckpointRow;
use frugal::policy::BudgetHealth;

fn args(v: &[&str]) -> Vec<String> {
    v.iter().map(|s| s.to_string()).collect()
}

#[test]
fn budget_arguments() {
    assert!(matches!(budget_command(&args(&[])), Ok(BudgetCommand::Show)));
    assert!(matches!(budget_command(&args(&["show"])), Ok(BudgetCommand::Show)));
    match budget_command(&args(&["set", "session", "10"])) {
        Ok(BudgetCommand::SetAmount { scope, amount }) => {
            assert_eq!(scope, "session");
            assert_eq!(amount.as_deref(), Some("10"));
        }
        _ => panic!("expected set"),
    }
    match budget_command(&args(&["set"])) {
        Ok(BudgetCommand::SetAmount { scope, amount }) => {
            assert_eq!(scope, "");
            assert!(amount.is_none());
        }
        _ => panic!("expected set"),
    }
    match budget_command(&args(&["clear", "daily"])) {
        Ok(BudgetCommand::Clear { scope }) => assert_eq!(scope, "daily"),
        _ => panic!("expected clear"),
    }
    match budget_command(&args(&["raise"])) {
        Err(e) => assert_eq!(e.message(), "unknown budget action \"raise\" (show|set|clear)"),
        _ => panic!("expected an error"),
    }
}

#[test]
fn profile_arguments() {
    assert!(matches!(profile_command(&args(&[])), Ok(ProfileCommand::Show)));
    match profile_command(&args(&["set", "balanced"])) {
        Ok(ProfileCommand::Choose { name }) => assert_eq!(name, "balanced"),
        _ => panic!("expected set"),
    }
    match profile_command(&args(&["list"])) {
        Err(CliError::UnknownProfileAction(a)) => assert_eq!(a, "list"),
        _ => panic!("expected an error"),
    }
    assert_eq!(
        CliError::UnknownProfileAction("li\"st".into()).message(),
        "unknown profile action \"li\\\"st\" (show|set)"
    );
    assert_eq!(profile_set_message("shadow"), "profile = shadow (observe-only)");
    assert_eq!(profile_set_message("balanced"), "profile = balanced");
}

#[test]
fn notes_periods_and_doctor() {
    assert_eq!(checkpoint_note(&args(&[])), "manual");
    assert_eq!(checkpoint_note(&args(&["before", "the", "refactor"])), "before the refactor");
    assert!(report_is_monthly("month"));
    assert!(!report_is_monthly("today"));
    assert!(!report_is_monthly("week"));
    assert_eq!(doctor_score(4, 5), 80);
    assert_eq!(doctor_score(2, 3), 66);
    assert_eq!(doctor_exit_code(80), 0);
    assert_eq!(doctor_exit_code(70), 0);
    assert_eq!(doctor_exit_code(66), 1);
}

#[test]
fn table_lines() {
    let t = ToolStat { tool: "Read".into(), calls: 12, duplicates: 3, est_tokens: 4500 };
    assert_eq!(tool_line(&t), format!("  {:<22} {:>5} {:>4} {:>10}", "Read", 12, 3, 4500));
    let c = CheckpointRow { ts: "2024-05-01".into(), note: "manual".into(), path: "/tmp/x.md".into() };
    assert_eq!(checkpoint_line(&c), format!("{}  {:<28} {}", "2024-05-01", "manual", "/tmp/x.md"));
    assert_eq!(first_chars("abcdef", 3), "abc");
    assert_eq!(first_chars("ab", 3), "ab");
    assert_eq!(first_chars("ééé", 2), "éé");
}

#[test]
fn status_line_parts() {
    let full = StatusInputs {
        context: Some("42".into()),
        cost: Some("1.50".into()),
        session_limit: Some("1".into()),
        duplicates: 2,
        profile: "balanced".into(),
        health: BudgetHealth::Exceeded,
    };
    assert_eq!(status_line(&full), "◈ FRUGAL │ CTX 42% │ $1.50 │ BUDGET $1 EXCEEDED │ dup 2 │ BALANCED X");
    let bare = StatusInputs {
        context: None,
        cost: None,
        session_limit: Some("10".into()),
        duplicates: 0,
        profile: "shadow".into(),
        health: BudgetHealth::Within,
    };
    assert_eq!(status_line(&bare), "◈ FRUGAL │ SHADOW ✓");
}

#[test]
fn doctor_lines_and_count() {
    assert_eq!(frugal::cli::doctor_line("SQLite database", true, "ignored"), "✓ SQLite database");
    assert_eq!(frugal::cli::doctor_line("telemetry (0 sessions recorded)", false, "start a session"), "⚠ telemetry (0 sessions recorded)  → start a session");
    assert_eq!(frugal::cli::doctor_line("data directory", false, ""), "⚠ data directory");
    assert_eq!(frugal::cli::passed_count(&vec![true, false, true, true, false]), 3);
    assert_eq!(frugal::cli::passed_count(&vec![]), 0);
}

#[test]
fn stats_rows_warning_and_exit() {
    let tools: Vec<frugal::economics::ToolStat> = (0..12)
        .map(|i| frugal::economics::ToolStat { tool: format!("t{i}"), calls: i, duplicates: 0, est_tokens: 7 })
        .collect();
    let lines = frugal::cli::stats_tool_lines(&tools);
    assert_eq!(lines.len(), 10);
    assert_eq!(lines[3], frugal::cli::tool_line(&tools[3]));
    assert_eq!(frugal::cli::stats_tool_lines(&tools[..2].iter().map(|t| frugal::economics::ToolStat { tool: t.tool.clone(), calls: t.calls, duplicates: t.duplicates, est_tokens: t.est_tokens }).collect()).len(), 2);
    assert_eq!(frugal::cli::duplicate_warning(0, 50), None);
    assert_eq!(
        frugal::cli::duplicate_warning(3, 1200).as_deref(),
        Some("\n⚠ 3 duplicate tool calls (~1200 wasted tokens) — identical tool+input repeated within this session")
    );
    assert_eq!(frugal::cli::stats_exit_code(false), 1);
    assert_eq!(frugal::cli::stats_exit_code(true), 0);
}
