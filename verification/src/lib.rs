//! Token-economy bookkeeping for coding-assistant sessions.
pub mod cli;
pub mod dashboard;
pub mod economics;
pub mod hooks;
pub mod json;
pub mod ledger;
pub mod mcp;
pub mod order;
pub mod policy;
pub mod providers;
pub mod telemetry;
pub mod text;
