//! Rows read back from the local ledger.
use vstd::prelude::*;

verus! {

/// Per-tool totals: calls, repeated calls, and estimated tokens.
pub struct ToolRow {
    pub tool: String,
    pub calls: i64,
    pub duplicates: i64,
    pub est_tokens: i64,
}

/// A logged event.
pub struct EventRow {
    pub ts: String,
    pub kind: String,
    pub detail: String,
}

/// A written checkpoint.
pub struct CheckpointRow {
    pub ts: String,
    pub note: String,
    pub path: String,
}

} // verus!
