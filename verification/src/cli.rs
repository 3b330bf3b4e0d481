//! Command-line decisions: reading sub-command arguments and composing the
//! lines the commands print.
use vstd::prelude::*;
use crate::ledger::CheckpointRow;
use crate::economics::ToolStat;
use crate::policy::{health_symbol, BudgetHealth};
use crate::text::{
    append, chars_of, debug_literal, debug_quoted, decimal, decimal_string, owned, pad_left, pad_right,
    padded_left, padded_right, push_char, str_equal, string_of_chars, to_upper, uppercase,
};

verus! {

broadcast use vstd::seq_lib::group_seq_properties;

/// `parts` joined with `sep` between consecutive parts.
pub open spec fn join(parts: Seq<Seq<char>>, sep: Seq<char>) -> Seq<char>
    decreases parts.len(),
{
    if parts.len() == 0 {
        Seq::empty()
    } else if parts.len() == 1 {
        parts[0]
    } else {
        join(parts.drop_last(), sep) + sep + parts.last()
    }
}

/// The texts of a vector of strings.
pub open spec fn texts(v: Seq<String>) -> Seq<Seq<char>> {
    v.map_values(|s: String| s@)
}

/// `parts` joined with `sep`.
pub fn join_strings(parts: &Vec<String>, sep: &str) -> (r: String)
    ensures
        r@ == join(texts(parts@), sep@),
{
    let mut r = String::new();
    for i in 0..parts.len()
        invariant
            r@ == join(texts(parts@.take(i as int)), sep@),
    {
        if i > 0 {
            append(&mut r, sep);
        }
        append(&mut r, parts[i].as_str());
        assert(texts(parts@.take(i + 1)).drop_last() =~= texts(parts@.take(i as int)));
    }
    assert(parts@.take(parts.len() as int) =~= parts@);
    r
}

/// The `i`-th argument, or `""` when there are fewer.
pub open spec fn arg_or_empty(args: Seq<String>, i: int) -> Seq<char> {
    if 0 <= i < args.len() {
        args[i]@
    } else {
        Seq::empty()
    }
}

fn arg_text(args: &Vec<String>, i: usize) -> (r: String)
    ensures
        r@ == arg_or_empty(args@, i as int),
{
    if i < args.len() {
        args[i].clone()
    } else {
        String::new()
    }
}

/// A `budget` sub-command.
pub enum BudgetCommand {
    /// Print the budgets.
    Show,
    /// Set the budget of a scope to an amount given as text (absent when not
    /// given).
    SetAmount { scope: String, amount: Option<String> },
    /// Clear the budget of a scope.
    Clear { scope: String },
}

/// A `profile` sub-command.
pub enum ProfileCommand {
    /// Print the profile.
    Show,
    /// Set the profile.
    Choose { name: String },
}

/// A sub-command action that is not understood.
pub enum CliError {
    UnknownBudgetAction(String),
    UnknownProfileAction(String),
}

impl CliError {
    /// The message printed for the error.
    pub fn message(&self) -> (r: String)
        ensures
            self matches CliError::UnknownBudgetAction(a) ==> r@ == "unknown budget action "@ + debug_literal(a@)
                + " (show|set|clear)"@,
            self matches CliError::UnknownProfileAction(a) ==> r@ == "unknown profile action "@ + debug_literal(
                a@,
            ) + " (show|set)"@,
    {
        match self {
            CliError::UnknownBudgetAction(a) => {
                let mut m = owned("unknown budget action ");
                append(&mut m, debug_quoted(a.as_str()).as_str());
                append(&mut m, " (show|set|clear)");
                m
            },
            CliError::UnknownProfileAction(a) => {
                let mut m = owned("unknown profile action ");
                append(&mut m, debug_quoted(a.as_str()).as_str());
                append(&mut m, " (show|set)");
                m
            },
        }
    }
}

/// Reads `budget` arguments: none or `show`; `set <scope> <usd>`;
/// `clear <scope>`.
pub fn budget_command(args: &Vec<String>) -> (r: Result<BudgetCommand, CliError>)
    ensures
        (args@.len() == 0 || args@[0]@ == "show"@) ==> (r matches Ok(BudgetCommand::Show)),
        (args@.len() > 0 && args@[0]@ == "set"@) ==> (r matches Ok(BudgetCommand::SetAmount { scope, amount })
            && scope@ == arg_or_empty(args@, 1) && (args@.len() > 2 ==> (amount matches Some(a) && a@
            == args@[2]@)) && (args@.len() <= 2 ==> amount is None)),
        (args@.len() > 0 && args@[0]@ == "clear"@) ==> (r matches Ok(BudgetCommand::Clear { scope }) && scope@
            == arg_or_empty(args@, 1)),
        (args@.len() > 0 && args@[0]@ != "show"@ && args@[0]@ != "set"@ && args@[0]@ != "clear"@) ==> (
        r matches Err(CliError::UnknownBudgetAction(a)) && a@ == args@[0]@),
{
    proof {
        reveal_strlit("show");
        reveal_strlit("set");
        reveal_strlit("clear");
        assert("show"@.len() == 4 && "set"@.len() == 3 && "clear"@.len() == 5);
    }
    if args.len() == 0 || str_equal(args[0].as_str(), "show") {
        Ok(BudgetCommand::Show)
    } else if str_equal(args[0].as_str(), "set") {
        let amount = if args.len() > 2 {
            Some(args[2].clone())
        } else {
            None
        };
        Ok(BudgetCommand::SetAmount { scope: arg_text(args, 1), amount })
    } else if str_equal(args[0].as_str(), "clear") {
        Ok(BudgetCommand::Clear { scope: arg_text(args, 1) })
    } else {
        Err(CliError::UnknownBudgetAction(args[0].clone()))
    }
}

/// Reads `profile` arguments: none or `show`; `set <name>`.
pub fn profile_command(args: &Vec<String>) -> (r: Result<ProfileCommand, CliError>)
    ensures
        (args@.len() == 0 || args@[0]@ == "show"@) ==> (r matches Ok(ProfileCommand::Show)),
        (args@.len() > 0 && args@[0]@ == "set"@) ==> (r matches Ok(ProfileCommand::Choose { name }) && name@
            == arg_or_empty(args@, 1)),
        (args@.len() > 0 && args@[0]@ != "show"@ && args@[0]@ != "set"@) ==> (r matches Err(
            CliError::UnknownProfileAction(a),
        ) && a@ == args@[0]@),
{
    proof {
        reveal_strlit("show");
        reveal_strlit("set");
        assert("show"@.len() == 4 && "set"@.len() == 3);
    }
    if args.len() == 0 || str_equal(args[0].as_str(), "show") {
        Ok(ProfileCommand::Show)
    } else if str_equal(args[0].as_str(), "set") {
        Ok(ProfileCommand::Choose { name: arg_text(args, 1) })
    } else {
        Err(CliError::UnknownProfileAction(args[0].clone()))
    }
}

/// What `profile set` prints: `profile = <name>`, noting that `shadow` only
/// observes.
pub fn profile_set_message(profile: &str) -> (r: String)
    ensures
        r@ == "profile = "@ + profile@ + (if profile@ == "shadow"@ {
            " (observe-only)"@
        } else {
            ""@
        }),
{
    let mut m = owned("profile = ");
    append(&mut m, profile);
    if str_equal(profile, "shadow") {
        append(&mut m, " (observe-only)");
    } else {
        proof {
            reveal_strlit("");
        }
        assert(m@ =~= "profile = "@ + profile@ + ""@);
    }
    m
}

/// The note of a `checkpoint` command: its words joined by spaces, or
/// `manual` when none are given.
pub fn checkpoint_note(words: &Vec<String>) -> (r: String)
    ensures
        words@.len() == 0 ==> r@ == "manual"@,
        words@.len() > 0 ==> r@ == join(texts(words@), " "@),
{
    if words.len() == 0 {
        owned("manual")
    } else {
        join_strings(words, " ")
    }
}

/// Whether a report period means the current month (anything else means
/// today).
pub fn report_is_monthly(period: &str) -> (r: bool)
    ensures
        r == (period@ == "month"@),
{
    str_equal(period, "month")
}

/// The doctor's health: the percentage of checks that passed, rounded down.
pub fn doctor_score(passed: usize, total: usize) -> (r: usize)
    requires
        total > 0,
        100 * passed <= usize::MAX,
    ensures
        r == (100 * passed) / (total as int),
{
    100 * passed / total
}

/// The doctor's exit status: success from 70 up.
pub fn doctor_exit_code(score: usize) -> (r: i32)
    ensures
        r == (if score >= 70 {
            0i32
        } else {
            1i32
        }),
{
    if score >= 70 {
        0
    } else {
        1
    }
}

/// The number of `true` entries.
pub open spec fn count_true(oks: Seq<bool>) -> int
    decreases oks.len(),
{
    if oks.len() == 0 {
        0
    } else {
        count_true(oks.drop_last()) + if oks.last() {
            1int
        } else {
            0int
        }
    }
}

/// How many of the doctor's checks passed.
pub fn passed_count(oks: &Vec<bool>) -> (r: usize)
    ensures
        r == count_true(oks@),
{
    let mut r: usize = 0;
    for i in 0..oks.len()
        invariant
            r == count_true(oks@.take(i as int)),
            r <= i,
    {
        assert(oks@.take(i + 1).drop_last() =~= oks@.take(i as int));
        if oks[i] {
            r = r + 1;
        }
    }
    assert(oks@.take(oks.len() as int) =~= oks@);
    r
}

/// A line of the doctor's report: a check mark or a warning sign, the check's
/// name, and for a failed check with a hint, an arrow and the hint.
pub open spec fn doctor_line_text(name: Seq<char>, ok: bool, hint: Seq<char>) -> Seq<char> {
    (if ok {
        "✓"@
    } else {
        "⚠"@
    }) + " "@ + name + (if !ok && hint.len() > 0 {
        "  → "@ + hint
    } else {
        ""@
    })
}

/// A line of the doctor's report.
pub fn doctor_line(name: &str, ok: bool, hint: &str) -> (r: String)
    ensures
        r@ == doctor_line_text(name@, ok, hint@),
{
    let mut r = if ok {
        owned("✓")
    } else {
        owned("⚠")
    };
    append(&mut r, " ");
    append(&mut r, name);
    if !ok && crate::text::char_count(hint) > 0 {
        append(&mut r, "  → ");
        append(&mut r, hint);
    } else {
        proof {
            reveal_strlit("");
        }
        assert(r@ =~= r@ + ""@);
    }
    r
}

/// The exit status of `stats`: failure when no session was recorded yet.
pub fn stats_exit_code(has_session: bool) -> (r: i32)
    ensures
        r == (if has_session {
            0i32
        } else {
            1i32
        }),
{
    if has_session {
        0
    } else {
        1
    }
}

/// Most tool rows `stats` prints.
pub const STATS_TOOL_ROWS: usize = 10;

/// The tool table of `stats`: one row per tool, for the first ten tools.
pub fn stats_tool_lines(tools: &Vec<ToolStat>) -> (r: Vec<String>)
    ensures
        r@.len() == (if tools@.len() < STATS_TOOL_ROWS {
            tools@.len() as int
        } else {
            STATS_TOOL_ROWS as int
        }),
        forall|i: int| 0 <= i < r@.len() ==> (#[trigger] r@[i])@ == tool_line_text(tools@[i]),
{
    let mut r: Vec<String> = Vec::new();
    let mut i: usize = 0;
    while i < tools.len() && i < STATS_TOOL_ROWS
        invariant
            i <= tools@.len(),
            i <= STATS_TOOL_ROWS,
            r@.len() == i,
            forall|k: int| 0 <= k < i ==> (#[trigger] r@[k])@ == tool_line_text(tools@[k]),
        decreases tools.len() - i,
    {
        r.push(tool_line(&tools[i]));
        i = i + 1;
    }
    r
}

/// The warning `stats` prints about repeated calls, only when there were any.
pub fn duplicate_warning(duplicate_calls: i64, duplicate_tokens: i64) -> (r: Option<String>)
    ensures
        duplicate_calls <= 0 ==> r is None,
        duplicate_calls > 0 ==> (r matches Some(w) && w@ == "\n⚠ "@ + decimal(duplicate_calls as int)
            + " duplicate tool calls (~"@ + decimal(duplicate_tokens as int)
            + " wasted tokens) — identical tool+input repeated within this session"@),
{
    if duplicate_calls > 0 {
        let mut w = owned("\n⚠ ");
        append(&mut w, decimal_string(duplicate_calls).as_str());
        append(&mut w, " duplicate tool calls (~");
        append(&mut w, decimal_string(duplicate_tokens).as_str());
        append(&mut w, " wasted tokens) — identical tool+input repeated within this session");
        Some(w)
    } else {
        None
    }
}

/// The first `n` characters of `s` (all of it when shorter).
pub fn first_chars(s: &str, n: usize) -> (r: String)
    ensures
        r@ == (if s@.len() <= n {
            s@
        } else {
            s@.take(n as int)
        }),
{
    let cs = chars_of(s);
    let mut r = String::new();
    let mut i: usize = 0;
    while i < cs.len() && i < n
        invariant
            cs@ == s@,
            i <= cs@.len(),
            i <= n,
            r@ == s@.take(i as int),
        decreases cs.len() - i,
    {
        push_char(&mut r, cs[i]);
        assert(s@.take(i + 1) =~= s@.take(i as int).push(cs@[i as int]));
        i = i + 1;
    }
    proof {
        if s@.len() <= n {
            assert(s@.take(i as int) =~= s@);
        }
    }
    r
}

/// A row of the tool table: name left-aligned in 22 characters, then calls,
/// repeats and estimated tokens right-aligned in 5, 4 and 10.
pub open spec fn tool_line_text(t: ToolStat) -> Seq<char> {
    "  "@ + pad_right(t.tool@, 22) + " "@ + pad_left(decimal(t.calls as int), 5) + " "@ + pad_left(
        decimal(t.duplicates as int),
        4,
    ) + " "@ + pad_left(decimal(t.est_tokens as int), 10)
}

/// A row of the `stats` tool table.
pub fn tool_line(t: &ToolStat) -> (r: String)
    ensures
        r@ == tool_line_text(*t),
{
    let mut r = owned("  ");
    append(&mut r, padded_right(t.tool.as_str(), 22).as_str());
    append(&mut r, " ");
    append(&mut r, padded_left(decimal_string(t.calls).as_str(), 5).as_str());
    append(&mut r, " ");
    append(&mut r, padded_left(decimal_string(t.duplicates).as_str(), 4).as_str());
    append(&mut r, " ");
    append(&mut r, padded_left(decimal_string(t.est_tokens).as_str(), 10).as_str());
    r
}

/// A line of the `checkpoints` listing: time, note left-aligned in 28
/// characters, path.
pub fn checkpoint_line(c: &CheckpointRow) -> (r: String)
    ensures
        r@ == c.ts@ + "  "@ + pad_right(c.note@, 28) + " "@ + c.path@,
{
    let mut r = c.ts.clone();
    append(&mut r, "  ");
    append(&mut r, padded_right(c.note.as_str(), 28).as_str());
    append(&mut r, " ");
    append(&mut r, c.path.as_str());
    r
}

/// Separator between status line parts.
pub const STATUS_SEPARATOR: &'static str = " │ ";

/// What the status line shows, with the numbers already formatted.
pub struct StatusInputs {
    /// Context use in whole percent.
    pub context: Option<String>,
    /// Session cost in dollars with two decimals.
    pub cost: Option<String>,
    /// Session budget in whole dollars, when one is set.
    pub session_limit: Option<String>,
    /// Repeated tool calls in the session.
    pub duplicates: i64,
    /// The profile name.
    pub profile: String,
    /// Session spend against the session budget.
    pub health: BudgetHealth,
}

/// The status line's opening parts: the banner and the context use.
pub open spec fn status_head(s: StatusInputs) -> Seq<Seq<char>> {
    match s.context {
        Some(c) => seq!["◈ FRUGAL"@, "CTX "@ + c@ + "%"@],
        None => seq!["◈ FRUGAL"@],
    }
}

/// The parts up to the cost.
pub open spec fn status_with_cost(s: StatusInputs) -> Seq<Seq<char>> {
    match s.cost {
        Some(c) => status_head(s).push("$"@ + c@),
        None => status_head(s),
    }
}

/// The parts up to the budget warning (shown only when the budget is
/// exceeded).
pub open spec fn status_with_budget(s: StatusInputs) -> Seq<Seq<char>> {
    match s.session_limit {
        Some(l) => if s.health is Exceeded {
            status_with_cost(s).push("BUDGET $"@ + l@ + " EXCEEDED"@)
        } else {
            status_with_cost(s)
        },
        None => status_with_cost(s),
    }
}

/// The parts up to the repeated-call count (shown only when positive).
pub open spec fn status_with_duplicates(s: StatusInputs) -> Seq<Seq<char>> {
    if s.duplicates > 0 {
        status_with_budget(s).push("dup "@ + decimal(s.duplicates as int))
    } else {
        status_with_budget(s)
    }
}

/// The parts of the status line, in order: banner, context, cost, budget
/// warning, repeats, and the upper-cased profile with the budget symbol.
pub open spec fn status_parts(s: StatusInputs) -> Seq<Seq<char>> {
    status_with_duplicates(s).push(uppercase(s.profile@) + seq![' ', health_symbol(s.health)])
}

/// The status line: the parts joined by ` │ `.
pub fn status_line(s: &StatusInputs) -> (r: String)
    ensures
        r@ == join(status_parts(*s), STATUS_SEPARATOR@),
{
    let mut parts: Vec<String> = Vec::new();
    parts.push(owned("◈ FRUGAL"));
    assert(texts(parts@) =~= seq!["◈ FRUGAL"@]);
    if let Some(c) = &s.context {
        let mut t = owned("CTX ");
        append(&mut t, c.as_str());
        append(&mut t, "%");
        let ghost before = parts@;
        parts.push(t);
        assert(texts(parts@) =~= texts(before).push(t@));
    }
    assert(texts(parts@) =~= status_head(*s));
    if let Some(c) = &s.cost {
        let mut t = owned("$");
        append(&mut t, c.as_str());
        let ghost before = parts@;
        parts.push(t);
        assert(texts(parts@) =~= texts(before).push(t@));
    }
    assert(texts(parts@) =~= status_with_cost(*s));
    if let Some(l) = &s.session_limit {
        if let BudgetHealth::Exceeded = s.health {
            let mut t = owned("BUDGET $");
            append(&mut t, l.as_str());
            append(&mut t, " EXCEEDED");
            let ghost before = parts@;
            parts.push(t);
            assert(texts(parts@) =~= texts(before).push(t@));
        }
    }
    assert(texts(parts@) =~= status_with_budget(*s));
    if s.duplicates > 0 {
        let mut t = owned("dup ");
        append(&mut t, decimal_string(s.duplicates).as_str());
        let ghost before = parts@;
        parts.push(t);
        assert(texts(parts@) =~= texts(before).push(t@));
    }
    assert(texts(parts@) =~= status_with_duplicates(*s));
    let mut last = to_upper(s.profile.as_str());
    push_char(&mut last, ' ');
    push_char(&mut last, s.health.symbol());
    assert(last@ =~= uppercase(s.profile@) + seq![' ', health_symbol(s.health)]);
    let ghost before = parts@;
    parts.push(last);
    assert(texts(parts@) =~= texts(before).push(last@));
    assert(texts(parts@) =~= status_parts(*s));
    join_strings(&parts, STATUS_SEPARATOR)
}

/// The status line's parts, in order: the banner; `CTX <context>%` when the
/// context is known; `$<cost>` when the cost is known; `BUDGET $<limit>
/// EXCEEDED` when a session budget is set and exceeded; `dup <n>` when there
/// were repeated calls (n > 0); and last the upper-cased profile, a space and
/// the budget symbol.
pub proof fn lemma_status_parts_shape(s: StatusInputs)
    ensures
        status_parts(s) == seq!["◈ FRUGAL"@] + (match s.context {
            Some(c) => seq!["CTX "@ + c@ + "%"@],
            None => Seq::<Seq<char>>::empty(),
        }) + (match s.cost {
            Some(c) => seq!["$"@ + c@],
            None => Seq::<Seq<char>>::empty(),
        }) + (match s.session_limit {
            Some(l) => if s.health is Exceeded {
                seq!["BUDGET $"@ + l@ + " EXCEEDED"@]
            } else {
                Seq::<Seq<char>>::empty()
            },
            None => Seq::<Seq<char>>::empty(),
        }) + (if s.duplicates > 0 {
            seq!["dup "@ + decimal(s.duplicates as int)]
        } else {
            Seq::<Seq<char>>::empty()
        }) + seq![uppercase(s.profile@) + seq![' ', health_symbol(s.health)]],
        s.duplicates > 0 ==> status_parts(s)[status_parts(s).len() - 2] == "dup "@ + decimal(
            s.duplicates as int,
        ),
{
    let a = seq!["◈ FRUGAL"@];
    let b = match s.context {
        Some(c) => seq!["CTX "@ + c@ + "%"@],
        None => Seq::<Seq<char>>::empty(),
    };
    let c = match s.cost {
        Some(c) => seq!["$"@ + c@],
        None => Seq::<Seq<char>>::empty(),
    };
    let d = match s.session_limit {
        Some(l) => if s.health is Exceeded {
            seq!["BUDGET $"@ + l@ + " EXCEEDED"@]
        } else {
            Seq::<Seq<char>>::empty()
        },
        None => Seq::<Seq<char>>::empty(),
    };
    let e = if s.duplicates > 0 {
        seq!["dup "@ + decimal(s.duplicates as int)]
    } else {
        Seq::<Seq<char>>::empty()
    };
    assert(status_head(s) =~= a + b);
    assert(status_with_cost(s) =~= a + b + c);
    assert(status_with_budget(s) =~= a + b + c + d);
    assert(status_with_duplicates(s) =~= a + b + c + d + e);
}

/// The tool row's columns: two spaces, the name left-aligned in 22, then the
/// calls right-aligned in 5, the repeats in 4 and the tokens in 10, one space
/// apart; with fields that fit, the row is 46 characters and the tokens end it.
pub proof fn lemma_tool_line_columns(t: ToolStat)
    requires
        t.tool@.len() <= 22,
        decimal(t.calls as int).len() <= 5,
        decimal(t.duplicates as int).len() <= 4,
        decimal(t.est_tokens as int).len() <= 10,
    ensures
        tool_line_text(t).len() == 46,
        tool_line_text(t).take(2) == "  "@,
        tool_line_text(t).subrange(2, 2 + t.tool@.len() as int) == t.tool@,
        tool_line_text(t).skip(46 - decimal(t.est_tokens as int).len()) == decimal(t.est_tokens as int),
{
    crate::text::lemma_padding(t.tool@, 22);
    crate::text::lemma_padding(decimal(t.calls as int), 5);
    crate::text::lemma_padding(decimal(t.duplicates as int), 4);
    crate::text::lemma_padding(decimal(t.est_tokens as int), 10);
    reveal_strlit("  ");
    reveal_strlit(" ");
    let a = pad_right(t.tool@, 22);
    let l = pad_left(decimal(t.est_tokens as int), 10);
    let line = tool_line_text(t);
    assert(line.subrange(2, 2 + t.tool@.len() as int) =~= a.take(t.tool@.len() as int));
    assert(line.skip(36) =~= l);
    assert(line.skip(46 - decimal(t.est_tokens as int).len()) =~= l.skip(10 - decimal(t.est_tokens as int).len()));
}

} // verus!
