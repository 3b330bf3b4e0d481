//! Session economics: per-tool statistics, duplicate waste, context pressure
//! and the health score.
use vstd::prelude::*;
use crate::json::{integer_value, string_value, JsonValue};
use crate::ledger::ToolRow;
use crate::policy::BudgetHealth;
use crate::text::owned;

verus! {

/// Per-tool statistics of a session.
pub struct ToolStat {
    pub tool: String,
    pub calls: i64,
    pub duplicates: i64,
    pub est_tokens: i64,
}

/// The statistics of each tool row, in order.
pub fn tool_stats(rows: Vec<ToolRow>) -> (r: Vec<ToolStat>)
    ensures
        r@.len() == rows@.len(),
        forall|i: int|
            0 <= i < r@.len() ==> (#[trigger] r@[i]).tool == rows@[i].tool && r@[i].calls == rows@[i].calls
                && r@[i].duplicates == rows@[i].duplicates && r@[i].est_tokens == rows@[i].est_tokens,
{
    let ghost orig = rows@;
    let mut rest = rows;
    let mut r: Vec<ToolStat> = Vec::new();
    let ghost mut k: int = 0;
    while rest.len() > 0
        invariant
            0 <= k <= orig.len(),
            rest@ == orig.skip(k),
            r@.len() == k,
            forall|i: int|
                0 <= i < k ==> (#[trigger] r@[i]).tool == orig[i].tool && r@[i].calls == orig[i].calls
                    && r@[i].duplicates == orig[i].duplicates && r@[i].est_tokens == orig[i].est_tokens,
        decreases rest.len(),
    {
        let t = rest.remove(0);
        assert(t == orig[k]);
        r.push(ToolStat { tool: t.tool, calls: t.calls, duplicates: t.duplicates, est_tokens: t.est_tokens });
        proof {
            k = k + 1;
        }
        assert(rest@ =~= orig.skip(k));
    }
    r
}

/// Context pressure, by how full the context window is: under 40% green,
/// from 40% yellow, from 60% orange, from 75% red, from 90% critical.
#[derive(PartialEq, Eq, Structural, Clone, Copy)]
pub enum PressureLevel {
    Green,
    Yellow,
    Orange,
    Red,
    Critical,
}

/// Health points lost to context pressure.
pub open spec fn pressure_penalty(level: PressureLevel) -> int {
    match level {
        PressureLevel::Critical => 30,
        PressureLevel::Red => 20,
        PressureLevel::Orange => 10,
        PressureLevel::Yellow => 5,
        PressureLevel::Green => 0,
    }
}

/// Health points lost to the session budget.
pub open spec fn budget_penalty(h: BudgetHealth) -> int {
    match h {
        BudgetHealth::Exceeded => 20,
        BudgetHealth::Warning => 10,
        BudgetHealth::Within => 0,
    }
}

impl PressureLevel {
    /// The label shown for a pressure level.
    pub fn label(&self) -> (r: &'static str)
        ensures
            *self is Critical ==> r@ == "CRITICAL"@,
            *self is Red ==> r@ == "RED"@,
            *self is Orange ==> r@ == "ORANGE"@,
            *self is Yellow ==> r@ == "YELLOW"@,
            *self is Green ==> r@ == "GREEN"@,
    {
        match self {
            PressureLevel::Critical => "CRITICAL",
            PressureLevel::Red => "RED",
            PressureLevel::Orange => "ORANGE",
            PressureLevel::Yellow => "YELLOW",
            PressureLevel::Green => "GREEN",
        }
    }
}

/// What the health score of the latest session is computed from.
pub struct HealthInputs {
    /// Context pressure, when the session reported its context use.
    pub pressure: Option<PressureLevel>,
    /// Repeated tool calls in the session.
    pub duplicate_calls: i64,
    /// The session spend against the session budget.
    pub budget: BudgetHealth,
}

/// The health score: 100 without a session; otherwise 100 less the pressure
/// penalty, twice the repeated calls (at most 20) and the budget penalty,
/// and never below 0.
pub open spec fn health_score_of(session: Option<HealthInputs>) -> int {
    match session {
        None => 100,
        Some(h) => {
            let p = match h.pressure {
                Some(l) => pressure_penalty(l),
                None => 0,
            };
            let d = if 2 * h.duplicate_calls < 20 {
                2 * h.duplicate_calls
            } else {
                20
            };
            let s = 100 - p - d - budget_penalty(h.budget);
            if s < 0 {
                0
            } else {
                s
            }
        },
    }
}

/// Health score 0-100 from context pressure, duplicate waste and budgets.
pub fn health_score(session: &Option<HealthInputs>) -> (r: i64)
    requires
        session matches Some(h) ==> 100 - i64::MAX <= 2 * h.duplicate_calls <= i64::MAX,
    ensures
        r == health_score_of(*session),
{
    let mut score: i64 = 100;
    if let Some(h) = session {
        if let Some(level) = h.pressure {
            score -= match level {
                PressureLevel::Critical => 30,
                PressureLevel::Red => 20,
                PressureLevel::Orange => 10,
                PressureLevel::Yellow => 5,
                PressureLevel::Green => 0,
            };
        }
        let doubled = h.duplicate_calls * 2;
        score -= if doubled < 20 {
            doubled
        } else {
            20
        };
        match h.budget {
            BudgetHealth::Exceeded => score -= 20,
            BudgetHealth::Warning => score -= 10,
            BudgetHealth::Within => {},
        }
    }
    if score < 0 {
        0
    } else {
        score
    }
}

/// The health score stays within 0 to 100 when the repeated-call count is
/// not negative.
pub proof fn lemma_health_score_range(session: Option<HealthInputs>)
    requires
        session matches Some(h) ==> h.duplicate_calls >= 0,
    ensures
        0 <= health_score_of(session) <= 100,
{
}

/// Rank of a context pressure: no reading lowest, then green up to critical.
pub open spec fn pressure_rank(p: Option<PressureLevel>) -> int {
    match p {
        None => 0,
        Some(PressureLevel::Green) => 1,
        Some(PressureLevel::Yellow) => 2,
        Some(PressureLevel::Orange) => 3,
        Some(PressureLevel::Red) => 4,
        Some(PressureLevel::Critical) => 5,
    }
}

/// Rank of a budget state: within, warning, exceeded.
pub open spec fn budget_rank(h: BudgetHealth) -> int {
    match h {
        BudgetHealth::Within => 0,
        BudgetHealth::Warning => 1,
        BudgetHealth::Exceeded => 2,
    }
}

/// The health score never rises when repeated calls rise, context pressure
/// rises or the budget state worsens.
pub proof fn lemma_health_score_monotone(a: HealthInputs, b: HealthInputs)
    requires
        a.duplicate_calls <= b.duplicate_calls,
        pressure_rank(a.pressure) <= pressure_rank(b.pressure),
        budget_rank(a.budget) <= budget_rank(b.budget),
    ensures
        health_score_of(Some(b)) <= health_score_of(Some(a)),
{
}

/// The score with these readings.
pub open spec fn score_with(pressure: Option<PressureLevel>, duplicate_calls: i64, budget: BudgetHealth) -> int {
    health_score_of(Some(HealthInputs { pressure, duplicate_calls, budget }))
}

/// `x`, but not below 0.
pub open spec fn at_least_zero(x: int) -> int {
    if x < 0 {
        0
    } else {
        x
    }
}

/// What each reading costs: a budget warning 10 points and an exceeded
/// budget 20; critical context pressure 30, red 20, orange 10, yellow 5 and
/// green nothing; each repeated call 2, at most 20 in all. Each cost comes off
/// the score without it, which never goes below 0; a clean session scores
/// 100 and no session at all scores 100.
pub proof fn lemma_health_penalties(p: Option<PressureLevel>, d: i64, b: BudgetHealth)
    ensures
        health_score_of(None) == 100,
        score_with(None, 0, BudgetHealth::Within) == 100,
        score_with(None, 0, BudgetHealth::Warning) == 90,
        score_with(None, 0, BudgetHealth::Exceeded) == 80,
        score_with(Some(PressureLevel::Red), 0, BudgetHealth::Within) == 80,
        score_with(p, d, BudgetHealth::Warning) == at_least_zero(score_with(p, d, BudgetHealth::Within) - 10),
        score_with(p, d, BudgetHealth::Exceeded) == at_least_zero(score_with(p, d, BudgetHealth::Within) - 20),
        score_with(Some(PressureLevel::Critical), d, b) == at_least_zero(score_with(None, d, b) - 30),
        score_with(Some(PressureLevel::Red), d, b) == at_least_zero(score_with(None, d, b) - 20),
        score_with(Some(PressureLevel::Orange), d, b) == at_least_zero(score_with(None, d, b) - 10),
        score_with(Some(PressureLevel::Yellow), d, b) == at_least_zero(score_with(None, d, b) - 5),
        score_with(Some(PressureLevel::Green), d, b) == score_with(None, d, b),
        score_with(p, d, b) == at_least_zero(score_with(p, 0, b) - (if 2 * d < 20 {
            2 * d
        } else {
            20
        })),
{
}

/// Integer division rounding toward zero, as `/` on Rust integers, for a
/// positive divisor.
pub open spec fn trunc_div(a: int, b: int) -> int {
    if a >= 0 {
        a / b
    } else {
        -((-a) / b)
    }
}

/// Repeated-call waste of one tool.
pub struct ToolWaste {
    pub tool: String,
    pub duplicate_calls: i64,
    pub est_wasted_tokens: i64,
}

/// Tokens estimated wasted by a tool's repeated calls: its tokens times its
/// repeats, over its calls (at least 1).
pub open spec fn wasted_tokens(t: ToolRow) -> int {
    trunc_div(t.est_tokens * t.duplicates, if t.calls > 1 { t.calls as int } else { 1 })
}

/// The rows of `tools` that have repeated calls.
pub open spec fn wasteful(tools: Seq<ToolRow>) -> Seq<ToolRow> {
    tools.filter(|t: ToolRow| t.duplicates > 0)
}

/// Each row's products fit the integer type.
pub open spec fn waste_fits(tools: Seq<ToolRow>) -> bool {
    forall|i: int|
        0 <= i < tools.len() ==> i64::MIN <= (#[trigger] tools[i]).est_tokens * tools[i].duplicates <= i64::MAX
}

proof fn lemma_wasteful_from_tools(tools: Seq<ToolRow>, t: ToolRow)
    requires
        wasteful(tools).contains(t),
    ensures
        tools.contains(t),
    decreases tools.len(),
{
    if tools.len() > 0 {
        let d = tools.drop_last();
        assert(tools =~= d.push(tools.last()));
        d.lemma_filter_push(tools.last(), |t: ToolRow| t.duplicates > 0);
        if wasteful(d).contains(t) {
            lemma_wasteful_from_tools(d, t);
        } else {
            assert(tools[tools.len() - 1] == t);
        }
    } else {
        assert(wasteful(tools).len() == 0) by {
            broadcast use vstd::seq_lib::group_filter_ensures;
        }
    }
}

/// The waste report lists exactly the rows with repeated calls, in their
/// order; each one's wasted tokens are its tokens times its repeats divided
/// by its calls (1 when it has none recorded), rounded toward zero.
pub proof fn lemma_waste_rows(tools: Seq<ToolRow>, t: ToolRow)
    ensures
        forall|i: int| 0 <= i < wasteful(tools).len() ==> (#[trigger] wasteful(tools)[i]).duplicates > 0,
        tools.contains(t) && t.duplicates > 0 ==> wasteful(tools).contains(t),
        wasteful(tools).contains(t) ==> tools.contains(t),
        ({
            let n: int = if t.calls > 1 { t.calls as int } else { 1 };
            let w = wasted_tokens(t);
            let x = t.est_tokens * t.duplicates;
            &&& x >= 0 ==> w * n <= x < w * n + n && w >= 0
            &&& x < 0 ==> -w * n <= -x < -w * n + n && w <= 0
        }),
{
    broadcast use vstd::seq_lib::group_filter_ensures;
    if wasteful(tools).contains(t) {
        lemma_wasteful_from_tools(tools, t);
    }
    let n: int = if t.calls > 1 { t.calls as int } else { 1 };
    let x = t.est_tokens * t.duplicates;
    if x >= 0 {
        assert((x / n) * n <= x < (x / n) * n + n) by (nonlinear_arith)
            requires
                n >= 1,
                x >= 0,
        ;
        assert(x / n >= 0) by (nonlinear_arith)
            requires
                n >= 1,
                x >= 0,
        ;
    } else {
        let y = -x;
        assert((y / n) * n <= y < (y / n) * n + n) by (nonlinear_arith)
            requires
                n >= 1,
                y > 0,
        ;
        assert(y / n >= 0) by (nonlinear_arith)
            requires
                n >= 1,
                y > 0,
        ;
    }
}

/// Repeated-call waste per tool, for the tools that had repeats, in order.
pub fn waste_by_tool(tools: &Vec<ToolRow>) -> (r: Vec<ToolWaste>)
    requires
        waste_fits(tools@),
    ensures
        r@.len() == wasteful(tools@).len(),
        forall|i: int|
            0 <= i < r@.len() ==> (#[trigger] r@[i]).tool@ == wasteful(tools@)[i].tool@
                && r@[i].duplicate_calls == wasteful(tools@)[i].duplicates && r@[i].est_wasted_tokens
                == wasted_tokens(wasteful(tools@)[i]),
{
    let mut r: Vec<ToolWaste> = Vec::new();
    for k in 0..tools.len()
        invariant
            waste_fits(tools@),
            r@.len() == wasteful(tools@.take(k as int)).len(),
            forall|i: int|
                0 <= i < r@.len() ==> (#[trigger] r@[i]).tool@ == wasteful(tools@.take(k as int))[i].tool@
                    && r@[i].duplicate_calls == wasteful(tools@.take(k as int))[i].duplicates
                    && r@[i].est_wasted_tokens == wasted_tokens(wasteful(tools@.take(k as int))[i]),
    {
        let t = &tools[k];
        proof {
            assert(tools@.take(k + 1) =~= tools@.take(k as int).push(tools@[k as int]));
            tools@.take(k as int).lemma_filter_push(tools@[k as int], |t: ToolRow| t.duplicates > 0);
        }
        if t.duplicates > 0 {
            let calls: i64 = if t.calls > 1 {
                t.calls
            } else {
                1
            };
            let product: i64 = t.est_tokens * t.duplicates;
            let wide: i128 = product as i128;
            let q: i128 = if wide >= 0 {
                wide / (calls as i128)
            } else {
                -((-wide) / (calls as i128))
            };
            r.push(ToolWaste { tool: t.tool.clone(), duplicate_calls: t.duplicates, est_wasted_tokens: q as i64 });
        }
    }
    assert(tools@.take(tools.len() as int) =~= tools@);
    r
}

/// The waste report for a day: the date, the repeated-call waste of each tool
/// that had repeats, and a note on what counts as a repeat.
pub fn waste_summary(date: &str, tools: &Vec<ToolRow>) -> (r: JsonValue)
    requires
        waste_fits(tools@),
    ensures
        r matches JsonValue::Object(es) && es@.len() == 3 && es@[0].0@ == "date"@ && es@[0].1
            == JsonValue::String(es@[0].1->String_0) && es@[0].1->String_0@ == date@ && es@[1].0@
            == "duplicate_waste_by_tool"@ && es@[1].1 is Array && es@[1].1->Array_0@.len() == wasteful(
            tools@,
        ).len() && es@[2].0@ == "note"@ && es@[2].1 is String && es@[2].1->String_0@
            == "duplicate tool calls = identical tool+input repeated within a session"@,
        forall|i: int|
            0 <= i < wasteful(tools@).len() ==> waste_item(
                #[trigger] r->Object_0@[1].1->Array_0@[i],
                wasteful(tools@)[i],
            ),
{
    let rows = waste_by_tool(tools);
    let mut items: Vec<JsonValue> = Vec::new();
    for i in 0..rows.len()
        invariant
            rows@.len() == wasteful(tools@).len(),
            forall|k: int|
                0 <= k < rows@.len() ==> (#[trigger] rows@[k]).tool@ == wasteful(tools@)[k].tool@
                    && rows@[k].duplicate_calls == wasteful(tools@)[k].duplicates
                    && rows@[k].est_wasted_tokens == wasted_tokens(wasteful(tools@)[k]),
            items@.len() == i,
            forall|k: int| 0 <= k < i ==> waste_item(#[trigger] items@[k], wasteful(tools@)[k]),
    {
        let w = &rows[i];
        let mut es: Vec<(String, JsonValue)> = Vec::new();
        es.push((owned("tool"), string_value(w.tool.as_str())));
        es.push((owned("duplicate_calls"), integer_value(w.duplicate_calls)));
        es.push((owned("est_wasted_tokens"), integer_value(w.est_wasted_tokens)));
        items.push(JsonValue::Object(es));
    }
    let mut es: Vec<(String, JsonValue)> = Vec::new();
    es.push((owned("date"), string_value(date)));
    es.push((owned("duplicate_waste_by_tool"), JsonValue::Array(items)));
    es.push((owned("note"), string_value("duplicate tool calls = identical tool+input repeated within a session")));
    JsonValue::Object(es)
}

/// `v` is the JSON entry reporting the waste of `t`.
pub open spec fn waste_item(v: JsonValue, t: ToolRow) -> bool {
    v matches JsonValue::Object(es) && es@.len() == 3 && es@[0].0@ == "tool"@ && es@[0].1 is String
        && es@[0].1->String_0@ == t.tool@ && es@[1].0@ == "duplicate_calls"@ && es@[1].1 is Number
        && es@[1].1->Number_0@ == crate::text::decimal(t.duplicates as int) && es@[2].0@ == "est_wasted_tokens"@
        && es@[2].1 is Number && es@[2].1->Number_0@ == crate::text::decimal(wasted_tokens(t))
}

} // verus!
