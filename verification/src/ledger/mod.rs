//! The work ledger: one list of task outcomes per thread and the prose each accumulates.
//!
//! Every write is a batch that either applies whole or leaves the ledger untouched, because a
//! half-applied batch describes a plan nobody wrote.

pub mod acceptance;
pub mod batch;
pub mod effects;
pub mod entries;
pub mod graph;
pub mod laws;
pub mod merge;
pub mod merging;
pub mod model;
pub mod query;
pub mod render;
pub mod reshaping;
pub mod showing;
pub mod split;
pub mod standing;
pub mod write;
