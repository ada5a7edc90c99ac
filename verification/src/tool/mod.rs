//! The `ledger` tool: one call records a batch of task changes, a pause, or a recall.
//!
//! Refusals are ordinary results that say what was wrong. Reading and storing ledgers is left to
//! the caller: a request is read from its arguments, and a recall or a write is worked out on the
//! ledgers that the caller holds.

pub mod laws;
pub mod recall;
pub mod request;
pub mod write;
