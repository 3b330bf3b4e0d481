//! Hook events from the coding assistant: call fingerprints, token estimates,
//! and what one event asks the ledger to record.
use sha2::{Digest, Sha256};
use vstd::prelude::*;
use vstd::utf8::encode_utf8;
use crate::json::{canonical, canonical_json, field_or_null, get, get_str_or, str_or, JsonValue};
use crate::text::{append, decimal, decimal_string, owned, push_char};

verus! {

broadcast use vstd::seq_lib::group_seq_properties;

/// The SHA-256 digest of a byte string.
pub uninterp spec fn sha256(data: Seq<u8>) -> Seq<u8>;

/// `Sha256::new()`, `update(first)`, `update(second)`, `finalize()`: the
/// SHA-256 digest of `first` followed by `second` (successive updates hash
/// as one message), which is 32 bytes long. The digest itself is left to sha2.
#[verifier::external_body]
fn sha256_of_pair(first: &[u8], second: &[u8]) -> (digest: Vec<u8>)
    ensures
        digest@ == sha256(first@ + second@),
        digest@.len() == 32,
{
    let mut hasher = Sha256::new();
    hasher.update(first);
    hasher.update(second);
    hasher.finalize().to_vec()
}

/// Lower-case hexadecimal digit for `n` (0 to 15).
pub open spec fn hex_digit(n: int) -> char {
    if n < 10 {
        ((n + 48) as u32) as char
    } else {
        ((n + 87) as u32) as char
    }
}

/// Two lower-case hex digits per byte (`{:02x}` each).
pub open spec fn hex_lower(bytes: Seq<u8>) -> Seq<char>
    decreases bytes.len(),
{
    if bytes.len() == 0 {
        Seq::empty()
    } else {
        hex_lower(bytes.drop_last()) + seq![
            hex_digit(bytes.last() as int / 16),
            hex_digit(bytes.last() as int % 16),
        ]
    }
}

/// `c` is a lower-case hexadecimal digit.
pub open spec fn is_hex_digit(c: char) -> bool {
    ('0' <= c && c <= '9') || ('a' <= c && c <= 'f')
}

/// The hex text of `bytes` has two lower-case hex digits per byte.
pub proof fn lemma_hex_lower_shape(bytes: Seq<u8>)
    ensures
        hex_lower(bytes).len() == 2 * bytes.len(),
        forall|i: int| 0 <= i < hex_lower(bytes).len() ==> is_hex_digit(#[trigger] hex_lower(bytes)[i]),
    decreases bytes.len(),
{
    if bytes.len() > 0 {
        lemma_hex_lower_shape(bytes.drop_last());
        let hi = bytes.last() as int / 16;
        let lo = bytes.last() as int % 16;
        assert(is_hex_digit(hex_digit(hi)) && is_hex_digit(hex_digit(lo)));
    }
}

fn hex_char(n: u8) -> (c: char)
    requires
        n < 16,
    ensures
        c == hex_digit(n as int),
{
    if n < 10 {
        let b: u8 = n + 48;
        b as char
    } else {
        let b: u8 = n + 87;
        b as char
    }
}

/// Fingerprint of a tool call: hex of the first 8 bytes of the SHA-256 of the
/// tool name followed by the canonical text of its input (both UTF-8).
pub open spec fn fingerprint_of(tool: Seq<char>, input: JsonValue) -> Seq<char> {
    hex_lower(sha256(encode_utf8(tool) + encode_utf8(canonical_json(input))).take(8))
}

/// Fingerprint of a tool call; identical tool and input (up to the order of
/// object keys) give identical fingerprints.
pub fn fingerprint(tool: &str, tool_input: &JsonValue) -> (r: String)
    ensures
        r@ == fingerprint_of(tool@, *tool_input),
        r@.len() == 16,
        forall|i: int| 0 <= i < r@.len() ==> is_hex_digit(#[trigger] r@[i]),
{
    let canon = canonical(tool_input);
    let digest = sha256_of_pair(tool.as_bytes(), canon.as_str().as_bytes());
    let ghost d = digest@;
    let mut r = String::new();
    for i in 0..8
        invariant
            digest@ == d,
            d.len() == 32,
            r@ == hex_lower(d.take(i as int)),
    {
        let b = digest[i];
        push_char(&mut r, hex_char(b / 16));
        push_char(&mut r, hex_char(b % 16));
        assert(d.take(i + 1).drop_last() =~= d.take(i as int));
    }
    proof {
        lemma_hex_lower_shape(d.take(8));
    }
    r
}

/// Estimated tokens of a value: a quarter of the byte length of its compact
/// JSON text (keys in sorted order, as serde_json writes a map).
pub open spec fn token_estimate(v: JsonValue) -> i64 {
    ((encode_utf8(canonical_json(v)).len() as usize) / 4) as i64
}

/// The token estimate is a quarter of the UTF-8 length of the value's compact
/// text, rounded down: one estimated token per four bytes.
pub proof fn lemma_token_estimate_quarter(v: JsonValue)
    requires
        encode_utf8(canonical_json(v)).len() <= usize::MAX,
    ensures
        4 * token_estimate(v) <= encode_utf8(canonical_json(v)).len() < 4 * token_estimate(v) + 4,
{
}

/// Estimated tokens of a JSON value: bytes of its compact text divided by 4.
pub fn estimate_tokens(value: &JsonValue) -> (r: i64)
    ensures
        r == token_estimate(*value),
{
    let text = canonical(value);
    (text.as_str().len() / 4) as i64
}

/// A tool call's fingerprint and its token estimate do not depend on the
/// order in which its input object lists its keys.
pub proof fn lemma_fingerprint_ignores_entry_order(tool: Seq<char>, a: JsonValue, b: JsonValue)
    requires
        a is Object,
        b is Object,
        crate::json::distinct_keys(a->Object_0@),
        crate::json::distinct_keys(b->Object_0@),
        forall|x: (String, JsonValue)| a->Object_0@.contains(x) <==> b->Object_0@.contains(x),
    ensures
        fingerprint_of(tool, a) == fingerprint_of(tool, b),
        token_estimate(a) == token_estimate(b),
{
    crate::json::lemma_canonical_ignores_entry_order(a, b);
}

/// Note on the checkpoint written before a compaction.
pub const PRE_COMPACT_NOTE: &'static str = "auto: pre-compaction";

/// Event kind logged for a repeated tool call.
pub const DUPLICATE_EVENT: &'static str = "duplicate_tool_call";

/// Event kind logged for the checkpoint written before a compaction.
pub const PRE_COMPACT_EVENT: &'static str = "pre_compact_checkpoint";

/// What one hook event asks the ledger to do.
pub enum IngestAction {
    /// Record a tool call with its fingerprint and estimated response tokens.
    RecordToolCall { tool: String, fingerprint: String, est_tokens: i64 },
    /// Write a checkpoint before compaction and log it.
    PreCompactCheckpoint,
    /// Log a session lifecycle event under its own name.
    LogLifecycle { event: String },
    /// Nothing to record for this event.
    Ignore { event: String },
}

/// One hook event: the session it touches and the action it asks for.
pub struct IngestPlan {
    pub session_id: String,
    pub cwd: String,
    pub action: IngestAction,
}

/// The session a payload names (`"unknown"` when it names none).
pub open spec fn payload_session(p: JsonValue) -> Seq<char> {
    str_or(p, "session_id"@, "unknown"@)
}

/// The event a payload names (empty when it names none).
pub open spec fn payload_event(p: JsonValue) -> Seq<char> {
    str_or(p, "hook_event_name"@, ""@)
}

/// Whether `e` is a session lifecycle event.
pub open spec fn is_lifecycle_event(e: Seq<char>) -> bool {
    e == "SessionStart"@ || e == "SessionEnd"@ || e == "Stop"@
}

/// What an ingest action records, as plain text and numbers.
pub enum PlannedAction {
    RecordToolCall { tool: Seq<char>, fingerprint: Seq<char>, est_tokens: i64 },
    PreCompactCheckpoint,
    LogLifecycle { event: Seq<char> },
    Ignore { event: Seq<char> },
}

/// The action as plain text and numbers.
pub open spec fn action_view(a: IngestAction) -> PlannedAction {
    match a {
        IngestAction::RecordToolCall { tool, fingerprint, est_tokens } => PlannedAction::RecordToolCall {
            tool: tool@,
            fingerprint: fingerprint@,
            est_tokens,
        },
        IngestAction::PreCompactCheckpoint => PlannedAction::PreCompactCheckpoint,
        IngestAction::LogLifecycle { event } => PlannedAction::LogLifecycle { event: event@ },
        IngestAction::Ignore { event } => PlannedAction::Ignore { event: event@ },
    }
}

/// What a payload asks to record: for `PostToolUse` the tool name (`"?"`
/// when none), the fingerprint of its input and the token estimate of its
/// response; for `PreCompact` a checkpoint; for a lifecycle event that
/// event; anything else is ignored under its name.
pub open spec fn planned_action(p: JsonValue) -> PlannedAction {
    let e = payload_event(p);
    if e == "PostToolUse"@ {
        let tool = str_or(p, "tool_name"@, "?"@);
        PlannedAction::RecordToolCall {
            tool,
            fingerprint: fingerprint_of(tool, field_or_null(p, "tool_input"@)),
            est_tokens: token_estimate(field_or_null(p, "tool_response"@)),
        }
    } else if e == "PreCompact"@ {
        PlannedAction::PreCompactCheckpoint
    } else if is_lifecycle_event(e) {
        PlannedAction::LogLifecycle { event: e }
    } else {
        PlannedAction::Ignore { event: e }
    }
}

/// Reads a hook payload and decides what to record for it.
pub fn plan_ingest(payload: &JsonValue) -> (plan: IngestPlan)
    ensures
        plan.session_id@ == payload_session(*payload),
        plan.cwd@ == str_or(*payload, "cwd"@, ""@),
        action_view(plan.action) == planned_action(*payload),
{
    let session_id = get_str_or(payload, "session_id", "unknown");
    let event = get_str_or(payload, "hook_event_name", "");
    let cwd = get_str_or(payload, "cwd", "");
    let is_post = crate::text::str_equal(event.as_str(), "PostToolUse");
    let is_pre = crate::text::str_equal(event.as_str(), "PreCompact");
    let is_life = crate::text::str_equal(event.as_str(), "SessionStart")
        || crate::text::str_equal(event.as_str(), "SessionEnd")
        || crate::text::str_equal(event.as_str(), "Stop");
    proof {
        reveal_strlit("PostToolUse");
        reveal_strlit("PreCompact");
        reveal_strlit("SessionStart");
        reveal_strlit("SessionEnd");
        reveal_strlit("Stop");
        assert("PostToolUse"@.len() == 11 && "PreCompact"@.len() == 10 && "SessionStart"@.len() == 12
            && "SessionEnd"@.len() == 10 && "Stop"@.len() == 4);
        assert("PreCompact"@[0] == 'P' && "SessionEnd"@[0] == 'S');
        assert("PostToolUse"@ != "PreCompact"@ && "PostToolUse"@ != "SessionStart"@ && "PostToolUse"@
            != "SessionEnd"@ && "PostToolUse"@ != "Stop"@);
        assert("PreCompact"@ != "SessionStart"@ && "PreCompact"@ != "SessionEnd"@ && "PreCompact"@
            != "Stop"@);
    }
    let action = if is_post {
        let tool = get_str_or(payload, "tool_name", "?");
        let null = JsonValue::Null;
        let input = match get(payload, "tool_input") {
            Some(x) => x,
            None => &null,
        };
        let fp = fingerprint(tool.as_str(), input);
        let response = match get(payload, "tool_response") {
            Some(x) => x,
            None => &null,
        };
        let est_tokens = estimate_tokens(response);
        IngestAction::RecordToolCall { tool, fingerprint: fp, est_tokens }
    } else if is_pre {
        IngestAction::PreCompactCheckpoint
    } else if is_life {
        IngestAction::LogLifecycle { event }
    } else {
        IngestAction::Ignore { event }
    };
    IngestPlan { session_id, cwd, action }
}

/// A plan depends on nothing of a payload but what it records: payloads that
/// agree on session, working directory, event, tool name, the fingerprint of
/// the tool input and the token estimate of the tool response are planned
/// alike, so no raw input or output reaches the ledger.
pub proof fn lemma_plan_depends_only_on_recorded(p1: JsonValue, p2: JsonValue)
    requires
        payload_session(p1) == payload_session(p2),
        str_or(p1, "cwd"@, ""@) == str_or(p2, "cwd"@, ""@),
        payload_event(p1) == payload_event(p2),
        str_or(p1, "tool_name"@, "?"@) == str_or(p2, "tool_name"@, "?"@),
        fingerprint_of(str_or(p1, "tool_name"@, "?"@), field_or_null(p1, "tool_input"@)) == fingerprint_of(
            str_or(p2, "tool_name"@, "?"@),
            field_or_null(p2, "tool_input"@),
        ),
        token_estimate(field_or_null(p1, "tool_response"@)) == token_estimate(
            field_or_null(p2, "tool_response"@),
        ),
    ensures
        planned_action(p1) == planned_action(p2),
{
}

/// What recording a tool call leads to, given how many identical calls the
/// session already had.
pub struct ToolCallOutcome {
    /// Event to log (kind, detail), if any.
    pub event: Option<(String, String)>,
    /// Short description of what was recorded.
    pub message: String,
}

/// `" (x" + n + ")"`.
pub open spec fn times_text(n: int) -> Seq<char> {
    " (x"@ + decimal(n) + ")"@
}

/// What recording a call of `tool` after `prior` identical calls reports.
pub open spec fn call_message(tool: Seq<char>, prior: int) -> Seq<char> {
    if prior > 0 {
        "duplicate "@ + tool + times_text(prior + 1)
    } else {
        "recorded "@ + tool
    }
}

/// The event logged for a call of `tool` after `prior` identical calls: a
/// duplicate event naming the repeat count, or none for a first call.
pub open spec fn call_event(tool: Seq<char>, prior: int) -> Option<(Seq<char>, Seq<char>)> {
    if prior > 0 {
        Some((DUPLICATE_EVENT@, tool + " repeated with identical input"@ + times_text(prior + 1)))
    } else {
        None
    }
}

/// Outcome of recording a call of `tool` after `prior` identical calls: a
/// repeat (`prior > 0`) logs a duplicate event and reports the repeat count.
pub fn tool_call_outcome(tool: &str, prior: i64) -> (r: ToolCallOutcome)
    requires
        prior < i64::MAX,
    ensures
        prior > 0 ==> (r.event matches Some((kind, detail)) && kind@ == DUPLICATE_EVENT@ && detail@
            == tool@ + " repeated with identical input"@ + times_text(prior + 1) && r.message@
            == "duplicate "@ + tool@ + times_text(prior + 1)),
        prior <= 0 ==> r.event is None && r.message@ == "recorded "@ + tool@,
        r.message@ == call_message(tool@, prior as int),
        (match r.event {
            Some((k, d)) => Some((k@, d@)),
            None => None,
        }) == call_event(tool@, prior as int),
{
    if prior > 0 {
        let count = decimal_string(prior + 1);
        let mut times = owned(" (x");
        append(&mut times, count.as_str());
        append(&mut times, ")");
        let mut detail = owned(tool);
        append(&mut detail, " repeated with identical input");
        append(&mut detail, times.as_str());
        let mut message = owned("duplicate ");
        append(&mut message, tool);
        append(&mut message, times.as_str());
        ToolCallOutcome { event: Some((owned(DUPLICATE_EVENT), detail)), message }
    } else {
        let mut message = owned("recorded ");
        append(&mut message, tool);
        ToolCallOutcome { event: None, message }
    }
}

/// The identical calls a ledger already holds for a session: its rows
/// (session, fingerprint) equal to the call's.
pub open spec fn prior_count(rows: Seq<(Seq<char>, Seq<char>)>, session: Seq<char>, fp: Seq<char>) -> int
    decreases rows.len(),
{
    if rows.len() == 0 {
        0
    } else {
        prior_count(rows.drop_last(), session, fp) + if rows.last() == (session, fp) {
            1int
        } else {
            0int
        }
    }
}

/// `rows` followed by `n` copies of `row`.
pub open spec fn with_copies(
    rows: Seq<(Seq<char>, Seq<char>)>,
    row: (Seq<char>, Seq<char>),
    n: nat,
) -> Seq<(Seq<char>, Seq<char>)> {
    rows + Seq::new(n, |i: int| row)
}

/// Recording a call adds one to the count of its own kind and leaves every
/// other (session, fingerprint) count as it was.
pub proof fn lemma_prior_count_step(
    rows: Seq<(Seq<char>, Seq<char>)>,
    row: (Seq<char>, Seq<char>),
    session: Seq<char>,
    fp: Seq<char>,
)
    ensures
        row == (session, fp) ==> prior_count(rows.push(row), session, fp) == prior_count(rows, session, fp) + 1,
        row != (session, fp) ==> prior_count(rows.push(row), session, fp) == prior_count(rows, session, fp),
{
    assert(rows.push(row).drop_last() =~= rows);
}

/// Identical calls in one session, as the ledger counts them: with no such
/// call before, the first is reported recorded and the `n`-th repeat as a
/// duplicate with count `n + 1` (x2, x3, ...). Calls whose input differs only
/// in key order have the same fingerprint, so they count as identical.
pub proof fn lemma_repeated_calls_counted(
    rows: Seq<(Seq<char>, Seq<char>)>,
    session: Seq<char>,
    fp: Seq<char>,
    tool: Seq<char>,
    n: nat,
)
    requires
        prior_count(rows, session, fp) == 0,
    ensures
        prior_count(with_copies(rows, (session, fp), n), session, fp) == n,
        n == 0 ==> call_message(tool, prior_count(with_copies(rows, (session, fp), n), session, fp))
            == "recorded "@ + tool,
        n > 0 ==> call_message(tool, prior_count(with_copies(rows, (session, fp), n), session, fp))
            == "duplicate "@ + tool + times_text(n + 1int),
        n == 0 ==> call_event(tool, prior_count(with_copies(rows, (session, fp), n), session, fp)) is None,
        n > 0 ==> call_event(tool, prior_count(with_copies(rows, (session, fp), n), session, fp)) == Some(
            (DUPLICATE_EVENT@, tool + " repeated with identical input"@ + times_text(n + 1int)),
        ),
    decreases n,
{
    if n == 0 {
        assert(with_copies(rows, (session, fp), 0) =~= rows);
    } else {
        let m = (n - 1) as nat;
        lemma_repeated_calls_counted(rows, session, fp, tool, m);
        assert(with_copies(rows, (session, fp), n) =~= with_copies(rows, (session, fp), m).push((session, fp)));
        lemma_prior_count_step(with_copies(rows, (session, fp), m), (session, fp), session, fp);
    }
}

/// Description of what an action other than a tool call recorded.
pub fn action_message(action: &IngestAction) -> (r: String)
    ensures
        action is PreCompactCheckpoint ==> r@ == "pre-compaction checkpoint"@,
        action matches IngestAction::LogLifecycle { event } ==> r@ == "recorded "@ + event@,
        action matches IngestAction::Ignore { event } ==> r@ == "ignored "@ + event@,
        action matches IngestAction::RecordToolCall { tool, .. } ==> r@ == "recorded "@ + tool@,
{
    match action {
        IngestAction::PreCompactCheckpoint => owned("pre-compaction checkpoint"),
        IngestAction::LogLifecycle { event } => {
            let mut m = owned("recorded ");
            append(&mut m, event.as_str());
            m
        },
        IngestAction::Ignore { event } => {
            let mut m = owned("ignored ");
            append(&mut m, event.as_str());
            m
        },
        IngestAction::RecordToolCall { tool, .. } => {
            let mut m = owned("recorded ");
            append(&mut m, tool.as_str());
            m
        },
    }
}

} // verus!
